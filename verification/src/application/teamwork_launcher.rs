//! The launcher's state and how each event changes it. The window, the
//! services that answer requests and the files live around it: they hand it
//! the events and carry out the requests it returns.
use vstd::prelude::*;
use crate::application::bookmarks::Bookmarks;
use crate::application::filter::country_filter::CountryFilter;
use crate::application::filter::filter_servers::Filter;
use crate::application::filter::map_filter::MapFilter;
use crate::application::filter::ping_filter::PingFilter;
use crate::application::filter::player_filter::PlayerFilter;
use crate::application::filter::game_mode_filter::GameModeFilter;
use crate::application::filter::provider_filter::ProviderFilter;
use crate::application::filter::stable_sort::{sorted_servers, stable_sorting};
use crate::application::filter_dictionary::FilterDictionary;
use crate::application::game_mode::GameModes;
use crate::application::country::Country;
use crate::application::game_mode::{GameModeId, GameModeRecord, record_key};
use crate::application::ip_port::{IpPort, Ipv4Addr, ip_port_text};
use crate::application::map::MapName;
use crate::application::mods::{ModInfoView, ModName, Registry};
use crate::application::source_order::{
    by_count, counted_sources, lemma_by_count_keeps, lemma_counted_positions, sources_by_bookmarks,
};
use crate::application::server::Property;
use crate::application::servers_summary::{
    addresses_to_query, all_game_modes, bookmarked_count, bookmarked_first, bookmarked_first_order,
    count_bookmarked, count_timeouts, countries_of, game_modes_of, all_properties, maps_of,
    maps_to_fetch, most_players, most_slots, player_bounds, properties_of, providers_of,
    ready_countries, thumbnails_to_fetch, timeouts, unique_addresses, servers_with,
    lemma_property_occurrences, lemma_property_codes,
};
use crate::application::thumbnail::copy_bytes;
use crate::application::message::{
    FetchServersMessage, FilterMessage, GameModesMessage, KeyboardMessage, NotificationMessage, ScreenshotsMessage,
    SettingsMessage,
};
use crate::application::notifications::{
    Notification, NotificationKind, Notifications, cleared, pushed, updated,
};
use crate::application::promised_value::PromisedValue;
use crate::application::screens::ServerView;
use crate::application::servers_source::SourceKey;
use crate::application::user_settings::{WindowSettings, effective_api_key};
use crate::keys::chars_of;
use crate::text::{
    contains_text, copy_text, is_blank, replace_text, replaced, string_from_chars, text_equal, text_is_blank,
};
use crate::time::Duration;
use crate::application::progress::Progress;
use crate::application::screens::Screens;
use crate::application::screenshots::{Screenshots, moved_next, moved_previous};
use crate::application::server::Server;
use crate::application::servers_counts::{ServersCounts, counts_of, lemma_occurrences_bound, occurrences};
use crate::application::servers_source::ServersSource;
use crate::application::thumbnail::ThumbnailCache;
use crate::application::user_settings::UserSettings;
use crate::application::views::Views;
use crate::ordered_map::{OrderedKey, OrderedMap};
use crate::time::Instant;

verus! {

pub struct TeamworkLauncher {
    pub views: Views<Screens>,
    pub servers: Vec<Server>,
    pub servers_counts: ServersCounts,
    pub user_settings: UserSettings,
    /// The `TEAMWORK_API_KEY` environment variable, when set.
    pub key_from_env: Option<String>,
    pub filter: Filter,
    pub servers_sources: Vec<ServersSource>,
    pub bookmarks: Bookmarks,
    pub game_modes: GameModes,
    pub notifications: Notifications,
    pub screenshots: Screenshots<Vec<u8>>,
    pub thumbnails_cache: ThumbnailCache,
    pub progress: Progress,
    pub fetch_servers_subscription_id: u64,
    pub shift_pressed: bool,
    pub is_loading_servers: bool,
    pub testing_mode_enabled: bool,
    pub mods_registry: Registry,
    pub selected_mod: Option<ModName>,
    pub is_loading_mods: bool,
    pub server_view_compact_mode: bool,
}

/// What a click on a dictionary entry does: with shift held, the entry alone
/// is kept checked, or alone unchecked when it was unchecked; else the entry
/// takes the state given, when it is known.
pub open spec fn dictionary_clicked<K: OrderedKey>(
    before: FilterDictionary<K>,
    after: FilterDictionary<K>,
    key: Seq<u32>,
    checked: bool,
    shift: bool,
) -> bool {
    &&& after.wf()
    &&& if shift {
        &&& after.checks().dom() == before.checks().dom()
        &&& forall|m: Seq<u32>| #[trigger] after.checks().dom().contains(m) ==> after.checks()[m] == ((m
            == key) == before.spec_is_checked(key))
    } else {
        after.checks() == if before.checks().dom().contains(key) {
            before.checks().insert(key, checked)
        } else {
            before.checks()
        }
    }
}

/// How a filter message changes the filter; nothing else of it changes.
pub open spec fn filter_changed(before: Filter, after: Filter, message: FilterMessage, shift: bool) -> bool {
    match message {
        FilterMessage::CountryChecked(country, checked) => {
            &&& after == Filter {
                country: CountryFilter { dictionary: after.country.dictionary, ..before.country },
                ..before
            }
            &&& dictionary_clicked(
                before.country.dictionary,
                after.country.dictionary,
                country.key_model(),
                checked,
                shift,
            )
        },
        FilterMessage::NoCountryChecked(checked) => after == Filter {
            country: CountryFilter { no_countries: checked, ..before.country },
            ..before
        },
        FilterMessage::TextChanged(text) => {
            &&& after == Filter { text: after.text, ..before }
            &&& after.text.spec_text() == text@
            &&& after.text.spec_ignore_case() == before.text.spec_ignore_case()
            &&& after.text.spec_ignore_accents() == before.text.spec_ignore_accents()
        },
        FilterMessage::BookmarkedOnlyChecked(checked) => after == Filter {
            bookmarked_only: checked,
            ..before
        },
        FilterMessage::IgnoreCaseChanged(checked) => {
            &&& after == Filter { text: after.text, ..before }
            &&& after.text.spec_text() == before.text.spec_text()
            &&& after.text.spec_ignore_case() == checked
            &&& after.text.spec_ignore_accents() == before.text.spec_ignore_accents()
        },
        FilterMessage::IgnoreAccentChanged(checked) => {
            &&& after == Filter { text: after.text, ..before }
            &&& after.text.spec_text() == before.text.spec_text()
            &&& after.text.spec_ignore_case() == before.text.spec_ignore_case()
            &&& after.text.spec_ignore_accents() == checked
        },
        FilterMessage::MaxPingChanged(max_ping) => after == Filter {
            ping: PingFilter { max_ping, ..before.ping },
            ..before
        },
        FilterMessage::AcceptPingTimeoutChanged(checked) => after == Filter {
            ping: PingFilter { accept_ping_timeout: checked, ..before.ping },
            ..before
        },
        FilterMessage::PingFilterEnabled(enabled) => after == Filter {
            ping: PingFilter { enabled, ..before.ping },
            ..before
        },
        FilterMessage::GameModeChecked(id, checked) => {
            &&& after == Filter {
                game_modes: GameModeFilter { dictionary: after.game_modes.dictionary, ..before.game_modes },
                ..before
            }
            &&& dictionary_clicked(
                before.game_modes.dictionary,
                after.game_modes.dictionary,
                id.key_model(),
                checked,
                shift,
            )
        },
        FilterMessage::CountryFilterEnabled(checked) => after == Filter {
            country: CountryFilter { enabled: checked, ..before.country },
            ..before
        },
        FilterMessage::GameModeFilterEnabled(checked) => after == Filter {
            game_modes: GameModeFilter { enabled: checked, ..before.game_modes },
            ..before
        },
        FilterMessage::VacSecuredChanged(switch) => after == Filter { vac_secured: switch, ..before },
        FilterMessage::RtdChanged(switch) => after == Filter { rtd: switch, ..before },
        FilterMessage::AllTalkChanged(switch) => after == Filter { all_talk: switch, ..before },
        FilterMessage::NoRespawnTimeChanged(switch) => after == Filter {
            no_respawn_time: switch,
            ..before
        },
        FilterMessage::PasswordChanged(switch) => after == Filter { password: switch, ..before },
        FilterMessage::RandomCritsChanged(switch) => after == Filter {
            random_crits: switch,
            ..before
        },
        FilterMessage::SortCriterionChanged(criterion) => after == Filter {
            sort_criterion: criterion,
            ..before
        },
        FilterMessage::SortDirectionChanged(direction) => after == Filter {
            sort_direction: direction,
            ..before
        },
        FilterMessage::MinimumPlayersChanged(value) => after == Filter {
            players: PlayerFilter { minimum_players: value, ..before.players },
            ..before
        },
        FilterMessage::MinimumFreeSlotsChanged(value) => after == Filter {
            players: PlayerFilter { minimum_free_slots: value, ..before.players },
            ..before
        },
        FilterMessage::PlayerFilterEnabled(enabled) => after == Filter {
            players: PlayerFilter { enabled, ..before.players },
            ..before
        },
        FilterMessage::MapChecked(map, checked) => {
            &&& after == Filter {
                maps: MapFilter { dictionary: after.maps.dictionary, ..before.maps },
                ..before
            }
            &&& dictionary_clicked(
                before.maps.dictionary,
                after.maps.dictionary,
                map.key_model(),
                checked,
                shift,
            )
        },
        FilterMessage::MapFilterEnabled(enabled) => after == Filter {
            maps: MapFilter { enabled, ..before.maps },
            ..before
        },
        FilterMessage::ProviderChecked(provider, checked) => {
            &&& after == Filter {
                providers: ProviderFilter { dictionary: after.providers.dictionary, ..before.providers },
                ..before
            }
            &&& dictionary_clicked(
                before.providers.dictionary,
                after.providers.dictionary,
                provider.key_model(),
                checked,
                false,
            )
        },
        FilterMessage::ProviderFilterEnabled(enabled) => after == Filter {
            providers: ProviderFilter { enabled, ..before.providers },
            ..before
        },
        FilterMessage::MapNameFilterChanged(text) => after == Filter {
            maps: MapFilter { text, ..before.maps },
            ..before
        },
    }
}

/// The servers after sorting them again in the filter's order.
pub open spec fn resorted(before: Seq<Server>, after: Seq<Server>, filter: Filter) -> bool {
    exists|origin: Seq<int>|
        stable_sorting(before, after, origin, filter.sort_criterion, filter.sort_direction)
}

/// The text shown while no API key is set.
pub open spec fn no_key_text() -> Seq<char> {
    "No Teamwork.tf API key specified.\nSet your API key in the settings."@
}

/// A text with each occurrence of a non-empty key hidden by `****`.
pub open spec fn obfuscated(key: Seq<char>, text: Seq<char>) -> Seq<char> {
    if key.len() == 0 {
        text
    } else {
        replaced(text, key, seq!['*', '*', '*', '*'])
    }
}

/// Hides the API key in a text shown or logged.
pub fn obfuscate_api_key(key: &str, text: &str) -> (r: String)
    ensures
        r@ == obfuscated(key@, text@),
{
    let k = chars_of(key);
    if k.len() == 0 {
        return copy_text(text);
    }
    let stars = "****";
    proof {
        reveal_strlit("****");
        assert(stars@ =~= seq!['*', '*', '*', '*']);
    }
    let chars = replace_text(text, key, stars);
    string_from_chars(&chars)
}

/// How long a notification of this kind stays: errors stay until clicked,
/// feedback for two seconds.
pub open spec fn kind_expiry(kind: NotificationKind) -> Option<nat> {
    match kind {
        NotificationKind::Error => None,
        NotificationKind::Feedback => Some(2_000_000_000),
    }
}

/// The first source with this key.
pub open spec fn is_first_source(sources: Seq<ServersSource>, key: Seq<char>, i: int) -> bool {
    &&& 0 <= i < sources.len()
    &&& sources[i].spec_key()@ == key
    &&& forall|j: int| 0 <= j < i ==> (#[trigger] sources[j]).spec_key()@ != key
}

/// The first source with this key is switched on or off; the others stay.
pub open spec fn source_switched(
    before: Seq<ServersSource>,
    after: Seq<ServersSource>,
    key: Seq<char>,
    enabled: bool,
) -> bool {
    &&& after.len() == before.len()
    &&& forall|j: int|
        0 <= j < before.len() ==> if is_first_source(before, key, j) {
            &&& (#[trigger] after[j]).spec_enabled() == enabled
            &&& after[j].spec_key() == before[j].spec_key()
            &&& after[j].spec_url() == before[j].spec_url()
            &&& after[j].spec_display_name() == before[j].spec_display_name()
        } else {
            after[j] == before[j]
        }
}

/// The window's position or size after a move or a resize; no window, no change.
pub open spec fn window_moved(window: Option<WindowSettings>, x: i32, y: i32) -> Option<WindowSettings> {
    match window {
        Some(w) => Some(WindowSettings { window_x: x, window_y: y, ..w }),
        None => None,
    }
}

pub open spec fn window_resized(window: Option<WindowSettings>, width: u32, height: u32) -> Option<
    WindowSettings,
> {
    match window {
        Some(w) => Some(WindowSettings { window_width: width, window_height: height, ..w }),
        None => None,
    }
}

/// How a settings message changes the launcher.
pub open spec fn settings_changed(
    before: TeamworkLauncher,
    after: TeamworkLauncher,
    message: SettingsMessage,
) -> bool {
    match message {
        SettingsMessage::TeamworkApiKeyChanged(key) => after == TeamworkLauncher {
            user_settings: UserSettings { teamwork_api_key: key, ..before.user_settings },
            ..before
        },
        SettingsMessage::SteamExecutableChanged(path) => after == TeamworkLauncher {
            user_settings: UserSettings { steam_executable_path: path, ..before.user_settings },
            ..before
        },
        SettingsMessage::SourceEnabled(key, enabled) => {
            &&& after == TeamworkLauncher { servers_sources: after.servers_sources, ..before }
            &&& source_switched(before.servers_sources@, after.servers_sources@, key@, enabled)
        },
        SettingsMessage::QuitWhenLaunchChecked(checked) => after == TeamworkLauncher {
            user_settings: UserSettings { quit_on_launch: checked, ..before.user_settings },
            ..before
        },
        SettingsMessage::QuitWhenCopyChecked(checked) => after == TeamworkLauncher {
            user_settings: UserSettings { quit_on_copy: checked, ..before.user_settings },
            ..before
        },
        SettingsMessage::WindowMoved { x, y } => after == TeamworkLauncher {
            user_settings: UserSettings {
                window: window_moved(before.user_settings.window, x, y),
                ..before.user_settings
            },
            ..before
        },
        SettingsMessage::WindowResized { width, height } => after == TeamworkLauncher {
            user_settings: UserSettings {
                window: window_resized(before.user_settings.window, width, height),
                ..before.user_settings
            },
            ..before
        },
        SettingsMessage::ThemeChanged(theme) => after == TeamworkLauncher {
            user_settings: UserSettings { theme, ..before.user_settings },
            ..before
        },
        SettingsMessage::OpenDirectory(_) => after == before,
        SettingsMessage::MaxCacheSizeChanged(value) => after == TeamworkLauncher {
            user_settings: UserSettings { max_thumbnails_cache_size_mb: value, ..before.user_settings },
            ..before
        },
    }
}

/// The source of the first server at this address, if it has one.
pub open spec fn first_source_of(servers: Seq<Server>, ip_port: ((u8, u8, u8, u8), u16)) -> Option<
    SourceKey,
>
    decreases servers.len(),
{
    if servers.len() == 0 {
        None
    } else if servers[0].ip_port@ == ip_port {
        servers[0].source_key
    } else {
        first_source_of(servers.drop_first(), ip_port)
    }
}

/// The servers once those at `ip` are located in `country`.
pub open spec fn with_country(servers: Seq<Server>, ip: (u8, u8, u8, u8), country: Country) -> Seq<Server> {
    Seq::new(
        servers.len(),
        |i: int|
            if servers[i].ip_port@.0 == ip {
                Server { country: PromisedValue::Ready(country), ..servers[i] }
            } else {
                servers[i]
            },
    )
}

/// A ping's answer: its duration, or none after a timeout.
pub open spec fn ping_result(duration: Option<Duration>) -> PromisedValue<Duration> {
    match duration {
        Some(d) => PromisedValue::Ready(d),
        None => PromisedValue::Absent,
    }
}

/// The servers once those at `ip` got the ping's answer.
pub open spec fn with_ping(servers: Seq<Server>, ip: (u8, u8, u8, u8), duration: Option<Duration>) -> Seq<
    Server,
> {
    Seq::new(
        servers.len(),
        |i: int|
            if servers[i].ip_port@.0 == ip {
                Server { ping: ping_result(duration), ..servers[i] }
            } else {
                servers[i]
            },
    )
}

/// How many servers are at `ip`.
pub open spec fn servers_at(servers: Seq<Server>, ip: (u8, u8, u8, u8)) -> nat
    decreases servers.len(),
{
    if servers.len() == 0 {
        0
    } else {
        servers_at(servers.drop_last(), ip) + if servers.last().ip_port@.0 == ip {
            1nat
        } else {
            0nat
        }
    }
}

/// A promised image by its bytes.
pub open spec fn promised_bytes(p: PromisedValue<Vec<u8>>) -> PromisedValue<Seq<u8>> {
    match p {
        PromisedValue::Ready(v) => PromisedValue::Ready(v@),
        PromisedValue::Loading => PromisedValue::Loading,
        PromisedValue::Absent => PromisedValue::Absent,
    }
}

/// The thumbnail that came for a map, as a promised image.
pub open spec fn thumbnail_result(thumbnail: Option<Seq<u8>>) -> PromisedValue<Seq<u8>> {
    match thumbnail {
        Some(t) => PromisedValue::Ready(t),
        None => PromisedValue::Absent,
    }
}

/// The models of some keys.
pub open spec fn models_of<K: OrderedKey>(keys: Seq<K>) -> Set<Seq<u32>> {
    Set::new(|m: Seq<u32>| exists|i: int| 0 <= i < keys.len() && #[trigger] keys[i].key_model() == m)
}

/// `after` is `before` with the keys of `added`: a new key is checked, a
/// known key keeps its state.
pub open spec fn dictionary_extended<K: OrderedKey>(
    before: FilterDictionary<K>,
    after: FilterDictionary<K>,
    added: Set<Seq<u32>>,
) -> bool {
    &&& after.wf()
    &&& forall|m: Seq<u32>| #[trigger] after.checks().dom().contains(m) <==> (before.checks().dom().contains(m)
        || added.contains(m))
    &&& forall|m: Seq<u32>| #[trigger] after.checks().dom().contains(m) ==> after.checks()[m] == if before.checks().dom().contains(m) {
        before.checks()[m]
    } else {
        true
    }
}

/// The maps of the servers, in order.
pub open spec fn server_maps(servers: Seq<Server>) -> Seq<MapName> {
    servers.map_values(|s: Server| s.map)
}

/// The providers of the servers, in order.
pub open spec fn server_providers(servers: Seq<Server>) -> Seq<String> {
    servers.map_values(|s: Server| s.provider)
}

/// The thumbnails of the servers once those in the cache are put in.
pub open spec fn cached_thumbnails(servers: Seq<Server>, cache: ThumbnailCache) -> Seq<
    PromisedValue<Seq<u8>>,
> {
    Seq::new(
        servers.len(),
        |i: int|
            if cache.images().dom().contains(servers[i].map.key_model()) {
                PromisedValue::Ready(cache.images()[servers[i].map.key_model()])
            } else {
                promised_bytes(servers[i].map_thumbnail)
            },
    )
}

/// The addresses of some servers' entries, by their view.
pub open spec fn addresses_view(ips: Seq<Ipv4Addr>) -> Seq<(u8, u8, u8, u8)> {
    ips.map_values(|ip: Ipv4Addr| ip@)
}

/// A count can grow by one.
pub open spec fn can_count_once_more(count: Map<Seq<u32>, usize>, key: Seq<u32>) -> bool {
    count.dom().contains(key) ==> count[key] < usize::MAX
}

/// `after` counts `key` once more than `before`.
pub open spec fn counted_once_more(before: Map<Seq<u32>, usize>, after: Map<Seq<u32>, usize>, key: Seq<u32>) -> bool {
    after == before.insert(
        key,
        if before.dom().contains(key) {
            (before[key] + 1) as usize
        } else {
            1usize
        },
    )
}

/// `after` holds `key`, checked when it is new.
pub open spec fn dictionary_added(before: Map<Seq<u32>, bool>, after: Map<Seq<u32>, bool>, key: Seq<u32>) -> bool {
    after == if before.dom().contains(key) {
        before
    } else {
        before.insert(key, true)
    }
}

/// What locating the servers at `ip` in `country` changes: the country is
/// added to the filter and counted, the servers get it and are sorted again,
/// and one more answer came.
pub open spec fn country_located(
    before: TeamworkLauncher,
    after: TeamworkLauncher,
    ip: (u8, u8, u8, u8),
    country: Country,
) -> bool {
    &&& after == TeamworkLauncher {
        filter: Filter {
            country: CountryFilter { dictionary: after.filter.country.dictionary, ..before.filter.country },
            ..before.filter
        },
        servers: after.servers,
        servers_counts: ServersCounts { countries: after.servers_counts.countries, ..before.servers_counts },
        progress: after.progress,
        ..before
    }
    &&& dictionary_added(
        before.filter.country.dictionary.checks(),
        after.filter.country.dictionary.checks(),
        country.key_model(),
    )
    &&& resorted(with_country(before.servers@, ip, country), after.servers@, before.filter)
    &&& counted_once_more(
        before.servers_counts.countries.to_map(),
        after.servers_counts.countries.to_map(),
        country.key_model(),
    )
    &&& after.progress@ == ((before.progress@.0 + 1) as u64, before.progress@.1)
}

/// The servers once those on `map` without a thumbnail got the one that came.
pub open spec fn with_thumbnail(servers: Seq<Server>, map: Seq<char>, thumbnail: Option<Seq<u8>>) -> Seq<
    PromisedValue<Seq<u8>>,
> {
    Seq::new(
        servers.len(),
        |i: int|
            if servers[i].map@ == map && !(servers[i].map_thumbnail is Ready) {
                thumbnail_result(thumbnail)
            } else {
                promised_bytes(servers[i].map_thumbnail)
            },
    )
}

/// The servers are the same but for their thumbnails, which are `thumbnails`.
pub open spec fn thumbnails_now(before: Seq<Server>, after: Seq<Server>, thumbnails: Seq<PromisedValue<Seq<u8>>>) -> bool {
    &&& after.len() == before.len()
    &&& thumbnails.len() == before.len()
    &&& forall|i: int|
        0 <= i < before.len() ==> #[trigger] after[i] == (Server { map_thumbnail: after[i].map_thumbnail, ..before[i] })
            && promised_bytes(after[i].map_thumbnail) == thumbnails[i]
}

/// The requests to make once the servers are all fetched: the thumbnails of
/// maps, and the countries and pings of addresses.
pub struct FinishRequests {
    pub thumbnails: Vec<MapName>,
    pub countries: Vec<Ipv4Addr>,
    pub pings: Vec<Ipv4Addr>,
}

/// What new servers change: their countries join the filter, and they join
/// the list, sorted again.
pub open spec fn servers_added(before: TeamworkLauncher, after: TeamworkLauncher, new_servers: Seq<Server>) -> bool {
    &&& after == TeamworkLauncher {
        filter: Filter {
            country: CountryFilter { dictionary: after.filter.country.dictionary, ..before.filter.country },
            ..before.filter
        },
        servers: after.servers,
        ..before
    }
    &&& dictionary_extended(
        before.filter.country.dictionary,
        after.filter.country.dictionary,
        models_of(ready_countries(new_servers)),
    )
    &&& resorted(before.servers@ + new_servers, after.servers@, before.filter)
}

/// The identifiers of some game modes.
pub open spec fn record_keys(records: Seq<GameModeRecord>) -> Set<Seq<u32>> {
    Set::new(|m: Seq<u32>| exists|i: int| 0 <= i < records.len() && #[trigger] record_key(records[i]) == m)
}

/// What a fetch that finished changes, for the servers as sorted then given
/// their cached thumbnails: the counts, the choices of the filter, the bounds
/// of the player filter, and the requests made, each counted in the progress.
pub open spec fn finished(
    before: TeamworkLauncher,
    after: TeamworkLauncher,
    requests: FinishRequests,
    thumbnail_service: bool,
    country_service: bool,
    ping_service: bool,
) -> bool {
    let servers = after.servers@;
    let order = bookmarked_first(servers, before.bookmarks);
    &&& after == TeamworkLauncher {
        is_loading_servers: false,
        servers: after.servers,
        servers_counts: after.servers_counts,
        filter: Filter {
            providers: ProviderFilter { dictionary: after.filter.providers.dictionary, ..before.filter.providers },
            maps: MapFilter { dictionary: after.filter.maps.dictionary, ..before.filter.maps },
            players: PlayerFilter {
                maximum_players: most_players(servers),
                maximum_free_slots: most_slots(servers),
                ..before.filter.players
            },
            ..before.filter
        },
        progress: after.progress,
        ..before
    }
    &&& exists|sorted: Seq<Server>|
        resorted(before.servers@, sorted, before.filter) && thumbnails_now(
            sorted,
            servers,
            cached_thumbnails(sorted, before.thumbnails_cache),
        )
    &&& requests.thumbnails@.map_values(|m: MapName| m.key_model()) == if thumbnail_service {
        maps_to_fetch(order)
    } else {
        Seq::empty()
    }
    &&& addresses_view(requests.countries@) == if country_service {
        unique_addresses(order)
    } else {
        Seq::empty()
    }
    &&& addresses_view(requests.pings@) == if ping_service {
        unique_addresses(order)
    } else {
        Seq::empty()
    }
    &&& after.progress@ == (
        before.progress@.0,
        (before.progress@.1 + requests.thumbnails@.len() + requests.countries@.len()
            + requests.pings@.len()) as u64,
    )
    &&& after.servers_counts.bookmarks == bookmarked_count(servers, before.bookmarks)
    &&& after.servers_counts.timeouts == timeouts(servers)
    &&& counts_of(after.servers_counts.countries, ready_countries(servers))
    &&& counts_of(after.servers_counts.properties, all_properties(servers))
    &&& counts_of(after.servers_counts.game_modes, all_game_modes(servers))
    &&& counts_of(after.servers_counts.maps, server_maps(servers))
    &&& counts_of(after.servers_counts.providers, server_providers(servers))
    &&& dictionary_extended(
        before.filter.providers.dictionary,
        after.filter.providers.dictionary,
        models_of(server_providers(servers)),
    )
    &&& dictionary_extended(
        before.filter.maps.dictionary,
        after.filter.maps.dictionary,
        models_of(server_maps(servers)),
    )
}

impl TeamworkLauncher {
    /// The API key in use.
    pub open spec fn api_key(&self) -> Seq<char> {
        effective_api_key(self.user_settings.stored_api_key(), self.key_from_env)
    }

    /// A notification can still be repeated once more.
    pub open spec fn can_notify(&self) -> bool {
        self.notifications.spec_current() matches Some(c) ==> c.multiplier < usize::MAX
    }

    pub open spec fn wf(&self) -> bool {
        &&& self.filter.wf()
        &&& self.bookmarks.wf()
        &&& self.game_modes.wf()
        &&& self.servers_counts.wf()
        &&& self.thumbnails_cache.wf()
        &&& self.mods_registry.wf()
    }

    /// The launcher as it starts: the main view, no server, the given settings,
    /// filter, sources, bookmarks and cache, and an error shown when no API key is set.
    pub fn new(
        user_settings: UserSettings,
        key_from_env: Option<String>,
        filter: Filter,
        servers_sources: Vec<ServersSource>,
        bookmarks: Bookmarks,
        thumbnails_cache: ThumbnailCache,
        testing_mode_enabled: bool,
    ) -> (r: TeamworkLauncher)
        requires
            filter.wf(),
            bookmarks.wf(),
            thumbnails_cache.wf(),
        ensures
            r.wf(),
            r.views@ == seq![Screens::Main],
            r.servers@ == Seq::<Server>::empty(),
            r.servers_counts.is_empty_counts(),
            r.user_settings == user_settings,
            r.key_from_env == key_from_env,
            r.filter == filter,
            r.servers_sources == servers_sources,
            r.bookmarks == bookmarks,
            r.game_modes.modes_map() == Map::<Seq<u32>, crate::application::game_mode::GameMode>::empty(),
            r.screenshots.spec_images() is Absent,
            r.screenshots.spec_current() == 0,
            r.thumbnails_cache == thumbnails_cache,
            r.progress@ == (0u64, 0u64),
            r.fetch_servers_subscription_id == 0,
            !r.shift_pressed,
            !r.is_loading_servers,
            r.testing_mode_enabled == testing_mode_enabled,
            r.mods_registry@ == Map::<Seq<u32>, ModInfoView>::empty(),
            r.selected_mod is None,
            !r.is_loading_mods,
            !r.server_view_compact_mode,
            r.notifications.spec_pending() == Seq::<Notification>::empty(),
            if is_blank(r.api_key()) {
                r.notifications.spec_current() matches Some(n) && n.text@ == no_key_text()
                    && n.expiry is None && n.kind == NotificationKind::Error && n.multiplier == 1
            } else {
                r.notifications.spec_current() is None
            },
    {
        let mut notifications = Notifications::new();
        if !user_settings.has_teamwork_api_key(&key_from_env) {
            notifications.push(
                Notification::new(
                    "No Teamwork.tf API key specified.\nSet your API key in the settings.",
                    None,
                    NotificationKind::Error,
                ),
            );
        }
        TeamworkLauncher {
            views: Views::new(Screens::Main),
            servers: Vec::new(),
            servers_counts: ServersCounts::new(),
            user_settings,
            key_from_env,
            filter,
            servers_sources,
            bookmarks,
            game_modes: GameModes::new(),
            notifications,
            screenshots: Screenshots::new(),
            thumbnails_cache,
            progress: Progress::default(),
            fetch_servers_subscription_id: 0,
            shift_pressed: false,
            is_loading_servers: false,
            testing_mode_enabled,
            mods_registry: Registry::new(),
            selected_mod: None,
            is_loading_mods: false,
            server_view_compact_mode: false,
        }
    }

    /// The window's title.
    pub fn title(&self) -> (t: String)
        ensures
            t@ == "Teamwork launcher"@ + if self.testing_mode_enabled {
                " - TESTING MODE"@
            } else {
                Seq::<char>::empty()
            },
    {
        let mut title: Vec<char> = Vec::new();
        crate::text::push_str(&mut title, "Teamwork launcher");
        if self.testing_mode_enabled {
            crate::text::push_str(&mut title, " - TESTING MODE");
        } else {
            assert(title@ =~= "Teamwork launcher"@ + Seq::<char>::empty());
        }
        string_from_chars(&title)
    }

    /// The API key in use.
    pub fn teamwork_api_key(&self) -> (key: String)
        ensures
            key@ == self.api_key(),
    {
        self.user_settings.teamwork_api_key(&self.key_from_env)
    }

    /// Shows a notification, with the API key hidden from its text.
    pub fn push_notification(&mut self, text: &str, kind: NotificationKind)
        requires
            old(self).can_notify(),
        ensures
            *final(self) == (TeamworkLauncher { notifications: final(self).notifications, ..*old(self) }),
            pushed(
                old(self).notifications,
                final(self).notifications,
                obfuscated(old(self).api_key(), text@),
                kind_expiry(kind),
                kind,
            ),
    {
        let key = self.teamwork_api_key();
        let shown = obfuscate_api_key(key.as_str(), text);
        let expiry = match kind {
            NotificationKind::Error => None,
            NotificationKind::Feedback => Some(Duration::from_secs(2)),
        };
        self.notifications.push(Notification::new(shown.as_str(), expiry, kind));
    }

    /// Starts a refresh: everything learnt of the servers is forgotten and a
    /// new fetch is asked for; without an API key an error is shown instead.
    pub fn refresh_servers(&mut self)
        requires
            old(self).wf(),
            is_blank(old(self).api_key()) ==> old(self).can_notify(),
            old(self).fetch_servers_subscription_id < u64::MAX,
        ensures
            final(self).wf(),
            if is_blank(old(self).api_key()) {
                &&& *final(self) == (TeamworkLauncher { notifications: final(self).notifications, ..*old(self) })
                &&& pushed(
                    old(self).notifications,
                    final(self).notifications,
                    obfuscated(old(self).api_key(), no_key_text()),
                    None,
                    NotificationKind::Error,
                )
            } else {
                &&& *final(self) == (TeamworkLauncher {
                    is_loading_servers: true,
                    progress: final(self).progress,
                    servers_counts: final(self).servers_counts,
                    servers: final(self).servers,
                    filter: Filter {
                        players: PlayerFilter {
                            maximum_free_slots: 0,
                            maximum_players: 0,
                            ..old(self).filter.players
                        },
                        ..old(self).filter
                    },
                    fetch_servers_subscription_id: (old(self).fetch_servers_subscription_id + 1) as u64,
                    ..*old(self)
                })
                &&& final(self).progress@ == (0u64, 0u64)
                &&& final(self).servers_counts.is_empty_counts()
                &&& final(self).servers@ == Seq::<Server>::empty()
            },
    {
        if !self.user_settings.has_teamwork_api_key(&self.key_from_env) {
            self.push_notification(
                "No Teamwork.tf API key specified.\nSet your API key in the settings.",
                NotificationKind::Error,
            );
        } else {
            self.is_loading_servers = true;
            self.progress.reset();
            self.servers_counts.reset();
            self.servers.clear();
            self.filter.players.maximum_free_slots = 0;
            self.filter.players.maximum_players = 0;
            self.fetch_servers_subscription_id = self.fetch_servers_subscription_id + 1;
        }
    }

    /// Hides an expired notification, or the one clicked.
    pub fn process_notification_message(&mut self, message: NotificationMessage, now: Instant)
        ensures
            *final(self) == (TeamworkLauncher { notifications: final(self).notifications, ..*old(self) }),
            match message {
                NotificationMessage::Update => updated(old(self).notifications, final(self).notifications, now),
                NotificationMessage::Clear => cleared(old(self).notifications, final(self).notifications),
            },
    {
        match message {
            NotificationMessage::Update => {
                self.notifications.update(now);
            },
            NotificationMessage::Clear => {
                self.notifications.clear_current();
            },
        }
    }

    /// Applies a change of the settings; opening a directory is left to the caller.
    pub fn process_settings_message(&mut self, message: SettingsMessage)
        ensures
            settings_changed(*old(self), *final(self), message),
    {
        match message {
            SettingsMessage::TeamworkApiKeyChanged(key) => {
                self.user_settings.set_teamwork_api_key(key);
            },
            SettingsMessage::SteamExecutableChanged(path) => {
                self.user_settings.steam_executable_path = path;
            },
            SettingsMessage::SourceEnabled(key, enabled) => {
                self.enable_source(&key, enabled);
            },
            SettingsMessage::QuitWhenLaunchChecked(checked) => {
                self.user_settings.quit_on_launch = checked;
            },
            SettingsMessage::QuitWhenCopyChecked(checked) => {
                self.user_settings.quit_on_copy = checked;
            },
            SettingsMessage::WindowMoved { x, y } => {
                if let Some(window) = self.user_settings.window {
                    self.user_settings.window = Some(WindowSettings { window_x: x, window_y: y, ..window });
                }
            },
            SettingsMessage::WindowResized { width, height } => {
                if let Some(window) = self.user_settings.window {
                    self.user_settings.window = Some(
                        WindowSettings { window_width: width, window_height: height, ..window },
                    );
                }
            },
            SettingsMessage::ThemeChanged(theme) => {
                self.user_settings.theme = theme;
            },
            SettingsMessage::OpenDirectory(_) => {},
            SettingsMessage::MaxCacheSizeChanged(value) => {
                self.user_settings.max_thumbnails_cache_size_mb = value;
            },
        }
    }

    /// Switches the first source with this key on or off.
    fn enable_source(&mut self, key: &SourceKey, enabled: bool)
        ensures
            *final(self) == (TeamworkLauncher { servers_sources: final(self).servers_sources, ..*old(self) }),
            source_switched(old(self).servers_sources@, final(self).servers_sources@, key@, enabled),
    {
        let mut i: usize = 0;
        while i < self.servers_sources.len()
            invariant
                i <= self.servers_sources@.len(),
                *self == *old(self),
                forall|j: int| 0 <= j < i ==> (#[trigger] self.servers_sources@[j]).spec_key()@ != key@,
            decreases self.servers_sources@.len() - i,
        {
            if text_equal(self.servers_sources[i].key().as_str(), key.as_str()) {
                let mut source = self.servers_sources.remove(i);
                source.set_enabled(enabled);
                self.servers_sources.insert(i, source);
                assert forall|j: int| 0 <= j < old(self).servers_sources@.len() implies (is_first_source(
                    old(self).servers_sources@,
                    key@,
                    j,
                ) <==> j == i) by {}
                return;
            }
            i = i + 1;
        }
    }

    /// Browses or replaces the screenshots; an error changes nothing.
    pub fn process_screenshots_message(&mut self, message: ScreenshotsMessage)
        ensures
            *final(self) == (TeamworkLauncher { screenshots: final(self).screenshots, ..*old(self) }),
            match message {
                ScreenshotsMessage::Screenshots(images) => final(self).screenshots.spec_images()
                    == PromisedValue::Ready(images@) && final(self).screenshots.spec_current() == 0,
                ScreenshotsMessage::Next => final(self).screenshots.spec_images()
                    == old(self).screenshots.spec_images() && final(self).screenshots.spec_current() == moved_next(
                    old(self).screenshots.spec_images() is Ready,
                    old(self).screenshots.spec_current() as int,
                    old(self).screenshots.spec_count(),
                ),
                ScreenshotsMessage::Previous => final(self).screenshots.spec_images()
                    == old(self).screenshots.spec_images() && final(self).screenshots.spec_current() == moved_previous(
                    old(self).screenshots.spec_images() is Ready,
                    old(self).screenshots.spec_current() as int,
                ),
                ScreenshotsMessage::Error(_) => final(self).screenshots == old(self).screenshots,
            },
    {
        match message {
            ScreenshotsMessage::Screenshots(images) => {
                self.screenshots.set(PromisedValue::Ready(images));
            },
            ScreenshotsMessage::Next => {
                self.screenshots.next();
            },
            ScreenshotsMessage::Previous => {
                self.screenshots.previous();
            },
            ScreenshotsMessage::Error(_) => {},
        }
    }

    /// Opens the settings.
    pub fn show_settings(&mut self)
        ensures
            *final(self) == (TeamworkLauncher { views: final(self).views, ..*old(self) }),
            final(self).views@ == old(self).views@.push(Screens::Settings),
    {
        self.views.push(Screens::Settings);
    }

    /// Opens the mods.
    pub fn show_mods(&mut self)
        ensures
            *final(self) == (TeamworkLauncher { views: final(self).views, ..*old(self) }),
            final(self).views@ == old(self).views@.push(Screens::Mods),
    {
        self.views.push(Screens::Mods);
    }

    /// Opens the details of a server; its screenshots are being fetched.
    pub fn show_server(&mut self, ip_port: IpPort)
        ensures
            *final(self) == (TeamworkLauncher {
                views: final(self).views,
                screenshots: final(self).screenshots,
                ..*old(self)
            }),
            final(self).views@ == old(self).views@.push(Screens::Server(ServerView { ip_port })),
            final(self).screenshots.spec_images() is Loading,
            final(self).screenshots.spec_current() == 0,
    {
        self.views.push(Screens::Server(ServerView::new(ip_port)));
        self.screenshots.set(PromisedValue::Loading);
    }

    /// Goes back to the previous view; when the list is empty and nothing is
    /// loading, a key having been given meanwhile, the servers are refreshed.
    pub fn go_back(&mut self)
        requires
            old(self).wf(),
            old(self).fetch_servers_subscription_id < u64::MAX,
        ensures
            final(self).wf(),
            final(self).views@ == if old(self).views@.len() == 0 {
                old(self).views@
            } else {
                old(self).views@.drop_last()
            },
            if !old(self).is_loading_servers && old(self).servers@.len() == 0 && !is_blank(old(self).api_key()) {
                &&& final(self).is_loading_servers
                &&& final(self).fetch_servers_subscription_id == old(self).fetch_servers_subscription_id + 1
                &&& final(self).progress@ == (0u64, 0u64)
                &&& final(self).servers_counts.is_empty_counts()
                &&& final(self).servers@ == Seq::<Server>::empty()
                &&& final(self).filter == (Filter {
                    players: PlayerFilter {
                        maximum_free_slots: 0,
                        maximum_players: 0,
                        ..old(self).filter.players
                    },
                    ..old(self).filter
                })
                &&& *final(self) == (TeamworkLauncher {
                    views: final(self).views,
                    is_loading_servers: true,
                    progress: final(self).progress,
                    servers_counts: final(self).servers_counts,
                    servers: final(self).servers,
                    filter: final(self).filter,
                    fetch_servers_subscription_id: final(self).fetch_servers_subscription_id,
                    ..*old(self)
                })
            } else {
                *final(self) == (TeamworkLauncher { views: final(self).views, ..*old(self) })
            },
    {
        self.views.pop();
        if !self.is_loading_servers && self.servers.len() == 0 && self.user_settings.has_teamwork_api_key(
            &self.key_from_env,
        ) {
            self.refresh_servers();
        }
    }
}

impl TeamworkLauncher {
    /// Counts how many servers have each property: a property is counted when
    /// some server has it, and its count is the number of servers that have it.
    pub fn count_properties(servers: &Vec<Server>) -> (count: OrderedMap<Property, usize>)
        ensures
            counts_of(count, all_properties(servers@)),
            forall|p: Property| #[trigger] count.to_map().dom().contains(p.key_model()) <==> servers_with(servers@, p) > 0,
            forall|p: Property| #[trigger] count.to_map().dom().contains(p.key_model()) ==> count.to_map()[p.key_model()]
                == servers_with(servers@, p),
            forall|m: Seq<u32>| #[trigger] count.to_map().dom().contains(m) ==> exists|p: Property| #[trigger] p.key_model() == m,
    {
        let count = TeamworkLauncher::histogram(properties_of(servers));
        proof {
            assert forall|p: Property| #[trigger] count.to_map().dom().contains(p.key_model()) <==> servers_with(servers@, p) > 0 by {
                lemma_property_occurrences(servers@, p);
            }
            assert forall|p: Property| #[trigger] count.to_map().dom().contains(p.key_model()) implies count.to_map()[p.key_model()]
                == servers_with(servers@, p) by {
                lemma_property_occurrences(servers@, p);
            }
            assert forall|m: Seq<u32>| #[trigger] count.to_map().dom().contains(m) implies exists|p: Property| #[trigger] p.key_model() == m by {
                lemma_property_codes(servers@, m);
            }
        }
        count
    }

    /// A country was found for the servers at `ip`.
    pub fn country_found(&mut self, ip: Ipv4Addr, country: Country)
        requires
            old(self).wf(),
            can_count_once_more(old(self).servers_counts.countries.to_map(), country.key_model()),
            old(self).progress@.0 < 0xFFFF_FFFF_FFFF_FFFFu64,
        ensures
            final(self).wf(),
            country_located(*old(self), *final(self), ip@, country),
    {
        self.filter.country.dictionary.add(country.clone());
        locate_servers(&mut self.servers, &ip, &country);
        self.servers_counts.add_country(country);
        self.sort_server();
        self.progress.increment_current();
    }

    /// The ping of the servers at `ip` came back, or timed out.
    pub fn ping_found(&mut self, ip: Ipv4Addr, duration: Option<Duration>)
        requires
            old(self).wf(),
            old(self).progress@.0 < 0xFFFF_FFFF_FFFF_FFFFu64,
            duration is None ==> old(self).servers_counts.timeouts + servers_at(old(self).servers@, ip@)
                <= usize::MAX,
        ensures
            final(self).wf(),
            *final(self) == (TeamworkLauncher {
                servers: final(self).servers,
                servers_counts: ServersCounts {
                    timeouts: final(self).servers_counts.timeouts,
                    ..old(self).servers_counts
                },
                progress: final(self).progress,
                ..*old(self)
            }),
            final(self).servers_counts.timeouts == old(self).servers_counts.timeouts + if duration is None {
                servers_at(old(self).servers@, ip@)
            } else {
                0
            },
            resorted(with_ping(old(self).servers@, ip@, duration), final(self).servers@, old(self).filter),
            final(self).progress@ == ((old(self).progress@.0 + 1) as u64, old(self).progress@.1),
    {
        let found = ping_servers(&mut self.servers, &ip, duration);
        if duration.is_none() {
            self.servers_counts.timeouts = self.servers_counts.timeouts + found;
        }
        self.sort_server();
        self.progress.increment_current();
    }

    /// The thumbnail of a map came, or failed to: it is cached when it came,
    /// and given to the servers on that map that have none yet.
    pub fn thumbnail_ready(&mut self, map_name: MapName, thumbnail: Option<Vec<u8>>)
        requires
            old(self).wf(),
            old(self).progress@.0 < 0xFFFF_FFFF_FFFF_FFFFu64,
        ensures
            final(self).wf(),
            *final(self) == (TeamworkLauncher {
                servers: final(self).servers,
                thumbnails_cache: final(self).thumbnails_cache,
                progress: final(self).progress,
                ..*old(self)
            }),
            thumbnails_now(
                old(self).servers@,
                final(self).servers@,
                with_thumbnail(old(self).servers@, map_name@, optional_bytes(thumbnail)),
            ),
            final(self).thumbnails_cache.directory() == old(self).thumbnails_cache.directory(),
            final(self).thumbnails_cache.images() == match thumbnail {
                Some(image) => old(self).thumbnails_cache.images().insert(map_name.key_model(), image@),
                None => old(self).thumbnails_cache.images(),
            },
            final(self).progress@ == ((old(self).progress@.0 + 1) as u64, old(self).progress@.1),
    {
        if let Some(image) = &thumbnail {
            self.thumbnails_cache.insert(map_name.clone(), copy_bytes(image));
        }
        give_thumbnail(&mut self.servers, &map_name, &thumbnail);
        self.progress.increment_current();
    }

    /// New servers were fetched: their countries join the filter, and they
    /// join the list, sorted again.
    pub fn new_servers(&mut self, new_servers: Vec<Server>)
        requires
            old(self).wf(),
        ensures
            final(self).wf(),
            servers_added(*old(self), *final(self), new_servers@),
    {
        let countries = countries_of(&new_servers);
        self.filter.country.dictionary.extend(countries);
        let mut new_servers = new_servers;
        self.servers.append(&mut new_servers);
        self.sort_server();
    }

    /// Bookmarks the first server at this address, or forgets the bookmark,
    /// when that server has a source.
    pub fn bookmark(&mut self, ip_port: IpPort, bookmarked: bool)
        requires
            old(self).wf(),
            first_source_of(old(self).servers@, ip_port@) is Some ==> if bookmarked {
                old(self).servers_counts.bookmarks < usize::MAX
            } else {
                old(self).servers_counts.bookmarks > 0
            },
        ensures
            final(self).wf(),
            match first_source_of(old(self).servers@, ip_port@) {
                None => *final(self) == *old(self),
                Some(key) => {
                    &&& *final(self) == (TeamworkLauncher {
                        bookmarks: final(self).bookmarks,
                        servers_counts: ServersCounts {
                            bookmarks: final(self).servers_counts.bookmarks,
                            ..old(self).servers_counts
                        },
                        ..*old(self)
                    })
                    &&& if bookmarked {
                        &&& final(self).bookmarks.servers() == old(self).bookmarks.servers().insert(ip_port.key_model())
                        &&& final(self).bookmarks.sources() == old(self).bookmarks.sources().insert(key.key_model())
                        &&& final(self).servers_counts.bookmarks == old(self).servers_counts.bookmarks + 1
                    } else {
                        &&& final(self).bookmarks.servers() == old(self).bookmarks.servers().remove(ip_port.key_model())
                        &&& final(self).bookmarks.sources() == old(self).bookmarks.sources().remove(key.key_model())
                        &&& final(self).servers_counts.bookmarks == old(self).servers_counts.bookmarks - 1
                    }
                },
            },
    {
        match source_of_first(&self.servers, &ip_port) {
            None => {},
            Some(source_key) => {
                if bookmarked {
                    self.bookmarks.add(ip_port, source_key);
                    self.servers_counts.bookmarks = self.servers_counts.bookmarks + 1;
                } else {
                    self.bookmarks.remove(&ip_port, &source_key);
                    self.servers_counts.bookmarks = self.servers_counts.bookmarks - 1;
                }
            },
        }
    }

    /// The sources to fetch servers from: each enabled one with its URL and the
    /// API key, the source with more bookmarked servers first; sources with as
    /// many keep their order.
    pub fn get_sources_urls(&self) -> (r: Vec<(SourceKey, String, String)>)
        requires
            self.wf(),
        ensures
            ({
                let order = by_count(
                    counted_sources(self.servers_sources@, self.servers@, self.bookmarks, self.servers_sources@.len() as int),
                );
                &&& r@.len() == order.len()
                &&& forall|i: int| 0 <= i < r@.len() ==> {
                    let source = #[trigger] self.servers_sources@[order[i].0 as int];
                    &&& r@[i].0 == source.spec_key()
                    &&& r@[i].1@ == source.spec_url()
                    &&& r@[i].2@ == self.api_key()
                }
            }),
    {
        let order = sources_by_bookmarks(&self.servers_sources, &self.servers, &self.bookmarks);
        proof {
            lemma_counted_positions(self.servers_sources@, self.servers@, self.bookmarks, self.servers_sources@.len() as int);
            let counted = counted_sources(self.servers_sources@, self.servers@, self.bookmarks, self.servers_sources@.len() as int);
            lemma_by_count_keeps(counted);
            assert forall|k: int| 0 <= k < order@.len() implies (#[trigger] order@[k]).0 < self.servers_sources@.len() by {
                assert(counted.contains(order@[k]));
                let j = choose|j: int| 0 <= j < counted.len() && counted[j] == order@[k];
                assert(counted[j].0 < self.servers_sources@.len());
            }
        }
        let key = self.teamwork_api_key();
        let mut r: Vec<(SourceKey, String, String)> = Vec::new();
        let mut i: usize = 0;
        while i < order.len()
            invariant
                i <= order@.len(),
                r@.len() == i,
                forall|k: int| 0 <= k < order@.len() ==> (#[trigger] order@[k]).0 < self.servers_sources@.len(),
                key@ == self.api_key(),
                forall|k: int| 0 <= k < i ==> {
                    let source = #[trigger] self.servers_sources@[order@[k].0 as int];
                    &&& r@[k].0 == source.spec_key()
                    &&& r@[k].1@ == source.spec_url()
                    &&& r@[k].2@ == self.api_key()
                },
            decreases order@.len() - i,
        {
            let source = &self.servers_sources[order[i].0];
            r.push((source.key().clone(), copy_text(source.url()), copy_text(key.as_str())));
            i = i + 1;
        }
        r
    }

    /// The game modes fetched are known from now on, and join the filter; a
    /// failure to fetch them is shown.
    pub fn process_game_modes_message(&mut self, message: GameModesMessage)
        requires
            old(self).wf(),
            old(self).can_notify(),
        ensures
            final(self).wf(),
            match message {
                GameModesMessage::GameModes(records) => {
                    &&& *final(self) == (TeamworkLauncher {
                        game_modes: final(self).game_modes,
                        filter: Filter {
                            game_modes: GameModeFilter {
                                dictionary: final(self).filter.game_modes.dictionary,
                                ..old(self).filter.game_modes
                            },
                            ..old(self).filter
                        },
                        ..*old(self)
                    })
                    &&& final(self).game_modes.modes_map().dom() == record_keys(records@)
                    &&& forall|i: int| #[trigger] crate::application::game_mode::last_mode_with(records@, record_key(records@[i]), i)
                        ==> final(self).game_modes.modes_map()[record_key(records@[i])]
                        == crate::application::game_mode::GameMode::of_record(records@[i])
                    &&& dictionary_extended(
                        old(self).filter.game_modes.dictionary,
                        final(self).filter.game_modes.dictionary,
                        record_keys(records@),
                    )
                },
                GameModesMessage::Error(_) => {
                    &&& *final(self) == (TeamworkLauncher { notifications: final(self).notifications, ..*old(self) })
                    &&& pushed(
                        old(self).notifications,
                        final(self).notifications,
                        obfuscated(old(self).api_key(), game_modes_failure_text()),
                        None,
                        NotificationKind::Error,
                    )
                },
            },
    {
        match message {
            GameModesMessage::GameModes(records) => {
                self.game_modes.reset(records.as_slice());
                let ids = mode_ids(&records);
                assert forall|m: Seq<u32>| models_of(ids@).contains(m) <==> #[trigger] record_keys(records@).contains(m) by {
                    if models_of(ids@).contains(m) {
                        let i = choose|i: int| 0 <= i < ids@.len() && #[trigger] ids@[i].key_model() == m;
                        assert(record_key(records@[i]) == m);
                    }
                    if record_keys(records@).contains(m) {
                        let i = choose|i: int| 0 <= i < records@.len() && #[trigger] record_key(records@[i]) == m;
                        assert(ids@[i].key_model() == m);
                    }
                }
                self.filter.game_modes.dictionary.extend(ids);
                assert(self.game_modes.modes_map().dom() =~= record_keys(records@));
            },
            GameModesMessage::Error(_) => {
                self.push_notification(
                    "Failed to fetch game modes.\nFiltering by game modes is disabled.",
                    NotificationKind::Error,
                );
            },
        }
    }

    /// The fetch of the servers finished: the servers are sorted again, take
    /// the thumbnails in the cache, are counted, bound the player filter and
    /// fill its choices; the requests for their thumbnails, countries and
    /// pings are returned, bookmarked servers first, each for a service that
    /// runs.
    #[verifier::spinoff_prover]
    pub fn on_finish(&mut self, thumbnail_service: bool, country_service: bool, ping_service: bool) -> (r:
        FinishRequests)
        requires
            old(self).wf(),
            old(self).progress@.1 + 3 * old(self).servers@.len() <= u64::MAX,
        ensures
            final(self).wf(),
            finished(*old(self), *final(self), r, thumbnail_service, country_service, ping_service),
    {
        self.is_loading_servers = false;
        self.sort_server();
        let ghost sorted = self.servers@;
        put_cached_thumbnails(&mut self.servers, &self.thumbnails_cache);
        let ghost servers = self.servers@;
        proof {
            lemma_request_bounds(servers, self.bookmarks);
        }
        let requests = make_requests(&self.servers, &self.bookmarks, thumbnail_service, country_service, ping_service);
        let total: u64 = requests.thumbnails.len() as u64 + requests.countries.len() as u64
            + requests.pings.len() as u64;
        let mut k: u64 = 0;
        let ghost before_loop = *self;
        while k < total
            invariant
                *self == (TeamworkLauncher { progress: self.progress, ..before_loop }),
                k <= total,
                self.progress@ == (old(self).progress@.0, (old(self).progress@.1 + k) as u64),
                old(self).progress@.1 + total <= u64::MAX,
            decreases total - k,
        {
            self.progress.increment_total();
            k = k + 1;
        }
        self.servers_counts.bookmarks = count_bookmarked(&self.servers, &self.bookmarks);
        self.servers_counts.countries = TeamworkLauncher::histogram(countries_of(&self.servers));
        self.servers_counts.properties = TeamworkLauncher::count_properties(&self.servers);
        self.servers_counts.game_modes = TeamworkLauncher::histogram(game_modes_of(&self.servers));
        self.servers_counts.timeouts = count_timeouts(&self.servers);
        let maps = maps_of(&self.servers);
        assert(maps@ =~= server_maps(servers));
        self.servers_counts.maps = TeamworkLauncher::histogram(maps);
        let providers = providers_of(&self.servers);
        assert(providers@ =~= server_providers(servers));
        self.servers_counts.providers = TeamworkLauncher::histogram(providers);
        let providers = providers_of(&self.servers);
        assert(providers@ =~= server_providers(servers));
        self.filter.providers.dictionary.extend(providers);
        let (players, slots) = player_bounds(&self.servers);
        self.filter.players.maximum_players = players;
        self.filter.players.maximum_free_slots = slots;
        let maps = maps_of(&self.servers);
        assert(maps@ =~= server_maps(servers));
        self.filter.maps.dictionary.extend(maps);
        proof {
            let order = bookmarked_first(servers, old(self).bookmarks);
            assert(self.servers@ == servers);
            assert(resorted(old(self).servers@, sorted, old(self).filter));
            assert(thumbnails_now(sorted, servers, cached_thumbnails(sorted, old(self).thumbnails_cache)));
            assert(self.progress@ == (
                old(self).progress@.0,
                (old(self).progress@.1 + requests.thumbnails@.len() + requests.countries@.len()
                    + requests.pings@.len()) as u64,
            ));
            assert(counts_of(self.servers_counts.countries, ready_countries(servers)));
            assert(counts_of(self.servers_counts.properties, all_properties(servers)));
            assert(counts_of(self.servers_counts.game_modes, all_game_modes(servers)));
            assert(counts_of(self.servers_counts.maps, server_maps(servers)));
            assert(counts_of(self.servers_counts.providers, server_providers(servers)));
            assert(dictionary_extended(
                old(self).filter.providers.dictionary,
                self.filter.providers.dictionary,
                models_of(server_providers(servers)),
            ));
            assert(dictionary_extended(
                old(self).filter.maps.dictionary,
                self.filter.maps.dictionary,
                models_of(server_maps(servers)),
            ));
        }
        requests
    }

    /// News of a fetch of the servers: new servers join the list; at the end
    /// the requests are made (see `on_finish`); a start or an error changes nothing.
    pub fn process_server_message(
        &mut self,
        message: FetchServersMessage,
        thumbnail_service: bool,
        country_service: bool,
        ping_service: bool,
    ) -> (r: Option<FinishRequests>)
        requires
            old(self).wf(),
            message is FetchServersFinish ==> old(self).progress@.1 + 3 * old(self).servers@.len() <= u64::MAX,
        ensures
            final(self).wf(),
            match message {
                FetchServersMessage::FetchServersFinish => r matches Some(requests) && finished(
                    *old(self),
                    *final(self),
                    requests,
                    thumbnail_service,
                    country_service,
                    ping_service,
                ),
                FetchServersMessage::NewServers(servers) => r is None && servers_added(*old(self), *final(self), servers@),
                _ => r is None && *final(self) == *old(self),
            },
    {
        match message {
            FetchServersMessage::FetchServersFinish => Some(
                self.on_finish(thumbnail_service, country_service, ping_service),
            ),
            FetchServersMessage::NewServers(servers) => {
                self.new_servers(servers);
                None
            },
            _ => None,
        }
    }

    /// Whether the game can be launched: without a Steam executable an error
    /// is shown instead.
    pub fn launch_game(&mut self) -> (launch: bool)
        requires
            old(self).can_notify(),
        ensures
            launch == !is_blank(old(self).user_settings.steam_executable_path@),
            launch ==> *final(self) == *old(self),
            !launch ==> *final(self) == (TeamworkLauncher { notifications: final(self).notifications, ..*old(self) })
                && pushed(
                old(self).notifications,
                final(self).notifications,
                obfuscated(old(self).api_key(), no_steam_text()),
                None,
                NotificationKind::Error,
            ),
    {
        if text_is_blank(self.user_settings.steam_executable_path.as_str()) {
            self.push_notification(
                "Steam executable not specified.\nSet the Steam executable in the settings.",
                NotificationKind::Error,
            );
            false
        } else {
            true
        }
    }

    /// Opening the configuration directory failed: the error is shown.
    pub fn directory_not_opened(&mut self, error: &str)
        requires
            old(self).can_notify(),
        ensures
            *final(self) == (TeamworkLauncher { notifications: final(self).notifications, ..*old(self) }),
            pushed(
                old(self).notifications,
                final(self).notifications,
                obfuscated(old(self).api_key(), not_opened_text() + error@),
                None,
                NotificationKind::Error,
            ),
    {
        let mut text: Vec<char> = Vec::new();
        crate::text::push_str(&mut text, "Failed to open configuration directory:\n");
        crate::text::push_str(&mut text, error);
        let shown = string_from_chars(&text);
        self.push_notification(shown.as_str(), NotificationKind::Error);
    }

    /// The console command that joins the server, for the clipboard; the
    /// window closes after when the settings ask for it.
    pub fn copy_connection_string(&self, ip_port: &IpPort) -> (c: WindowCommand)
        ensures
            c matches WindowCommand::CopyToClipboard { text, close } && text@ == connection_text(ip_port@)
                && close == self.user_settings.quit_on_copy,
    {
        WindowCommand::CopyToClipboard {
            text: ip_port.steam_connection_string(),
            close: self.user_settings.quit_on_copy,
        }
    }

    /// Copies a text, confirming it by a notification.
    pub fn copy_to_clipboard(&mut self, text: String) -> (c: WindowCommand)
        requires
            old(self).can_notify(),
        ensures
            *final(self) == (TeamworkLauncher { notifications: final(self).notifications, ..*old(self) }),
            pushed(
                old(self).notifications,
                final(self).notifications,
                obfuscated(old(self).api_key(), copied_text()),
                kind_expiry(NotificationKind::Feedback),
                NotificationKind::Feedback,
            ),
            c matches WindowCommand::CopyToClipboard { text: t, close } && t == text && !close,
    {
        self.push_notification("Copied to clipboard!", NotificationKind::Feedback);
        WindowCommand::CopyToClipboard { text, close: false }
    }

    /// Copies the command that joins the server, confirming it by a notification.
    pub fn copy_connection(&mut self, ip_port: IpPort) -> (c: WindowCommand)
        requires
            old(self).can_notify(),
        ensures
            *final(self) == (TeamworkLauncher { notifications: final(self).notifications, ..*old(self) }),
            pushed(
                old(self).notifications,
                final(self).notifications,
                obfuscated(old(self).api_key(), copied_text()),
                kind_expiry(NotificationKind::Feedback),
                NotificationKind::Feedback,
            ),
            c matches WindowCommand::CopyToClipboard { text, close } && text@ == connection_text(ip_port@)
                && close == old(self).user_settings.quit_on_copy,
    {
        self.push_notification("Copied to clipboard!", NotificationKind::Feedback);
        self.copy_connection_string(&ip_port)
    }

    /// The user asks to play on a server, the game running or not: a running
    /// game gets the connection string through the clipboard; else the game is
    /// launched, when Steam's executable is known.
    pub fn request_launch(&mut self, ip_port: IpPort, game_running: bool) -> (c: WindowCommand)
        requires
            old(self).can_notify(),
        ensures
            *final(self) == (TeamworkLauncher { notifications: final(self).notifications, ..*old(self) }),
            if game_running {
                &&& pushed(
                    old(self).notifications,
                    final(self).notifications,
                    obfuscated(old(self).api_key(), already_started_text()),
                    kind_expiry(NotificationKind::Feedback),
                    NotificationKind::Feedback,
                )
                &&& c matches WindowCommand::CopyToClipboard { text, close } && text@ == connection_text(ip_port@)
                    && close == old(self).user_settings.quit_on_copy
            } else if is_blank(old(self).user_settings.steam_executable_path@) {
                &&& pushed(
                    old(self).notifications,
                    final(self).notifications,
                    obfuscated(old(self).api_key(), no_steam_text()),
                    None,
                    NotificationKind::Error,
                )
                &&& c is Nothing
            } else {
                &&& final(self).notifications == old(self).notifications
                &&& c matches WindowCommand::Launch(target) && target == ip_port
            },
    {
        if game_running {
            self.push_notification(
                "The game is already started.\nConnection string copied to clipboard!",
                NotificationKind::Feedback,
            );
            self.copy_connection_string(&ip_port)
        } else if self.launch_game() {
            WindowCommand::Launch(ip_port)
        } else {
            WindowCommand::Nothing
        }
    }

    /// The game was launched, or failed to: a failure is shown, a success is
    /// confirmed; returns whether the window closes, as the settings ask after
    /// a launch.
    pub fn game_launched(&mut self, outcome: Result<(), String>) -> (close: bool)
        requires
            old(self).can_notify(),
        ensures
            *final(self) == (TeamworkLauncher { notifications: final(self).notifications, ..*old(self) }),
            match outcome {
                Err(error) => pushed(
                    old(self).notifications,
                    final(self).notifications,
                    obfuscated(old(self).api_key(), error@),
                    None,
                    NotificationKind::Error,
                ) && !close,
                Ok(()) => pushed(
                    old(self).notifications,
                    final(self).notifications,
                    obfuscated(old(self).api_key(), starting_text()),
                    kind_expiry(NotificationKind::Feedback),
                    NotificationKind::Feedback,
                ) && close == old(self).user_settings.quit_on_launch,
            },
    {
        match outcome {
            Err(error) => {
                self.push_notification(error.as_str(), NotificationKind::Error);
                false
            },
            Ok(()) => {
                self.push_notification("Starting game!", NotificationKind::Feedback);
                self.user_settings.quit_on_launch
            },
        }
    }

    /// Counts one more `key`: a new key starts at one.
    pub fn increment_count<K: OrderedKey>(count: &mut OrderedMap<K, usize>, key: K)
        requires
            old(count).wf(),
            old(count).to_map().dom().contains(key.key_model()) ==> old(count).to_map()[key.key_model()]
                < usize::MAX,
        ensures
            final(count).wf(),
            final(count).to_map() == old(count).to_map().insert(
                key.key_model(),
                if old(count).to_map().dom().contains(key.key_model()) {
                    (old(count).to_map()[key.key_model()] + 1) as usize
                } else {
                    1usize
                },
            ),
    {
        match count.position(&key) {
            Some(i) => {
                proof {
                    count.lemma_index(i as int);
                }
                let n = *count.value_at(i);
                count.set_value_at(i, n + 1);
            },
            None => {
                count.insert_if_absent(key, 1);
            },
        }
    }

    /// Counts each value: for example with `[3, 3, 3, 2, 2, 1]` the result is
    /// `3 -> 3, 2 -> 2, 1 -> 1`.
    pub fn histogram<K: OrderedKey>(values: Vec<K>) -> (count: OrderedMap<K, usize>)
        ensures
            counts_of(count, values@),
            count.wf(),
            forall|m: Seq<u32>| #[trigger] count.to_map().dom().contains(m) <==> occurrences(values@, m) > 0,
            forall|m: Seq<u32>| #[trigger] count.to_map().dom().contains(m) ==> count.to_map()[m]
                == occurrences(values@, m),
    {
        let ghost given = values@;
        let mut values = values;
        let total: usize = values.len();
        assert(given.len() == total);
        let mut count: OrderedMap<K, usize> = OrderedMap::new();
        let mut done: usize = 0;
        assert(given.skip(0) =~= given);
        while values.len() > 0
            invariant
                count.wf(),
                given.len() <= usize::MAX,
                done <= given.len(),
                values@ == given.skip(done as int),
                forall|m: Seq<u32>| #[trigger] count.to_map().dom().contains(m) <==> occurrences(given.take(done as int), m) > 0,
                forall|m: Seq<u32>| #[trigger] count.to_map().dom().contains(m) ==> count.to_map()[m]
                    == occurrences(given.take(done as int), m),
            decreases values@.len(),
        {
            let key = values.remove(0);
            let ghost km = key.key_model();
            proof {
                assert(key == given[done as int]);
                assert(given.take(done + 1).drop_last() =~= given.take(done as int));
                assert(given.take(done + 1).last() == key);
                lemma_occurrences_bound(given.take(done as int), km);
                assert(given.take(done as int).len() == done);
                assert(done < given.len());
            }
            TeamworkLauncher::increment_count(&mut count, key);
            proof {
                assert forall|m: Seq<u32>| #[trigger] count.to_map().dom().contains(m) <==> occurrences(given.take(done + 1), m) > 0 by {
                    assert(occurrences(given.take(done + 1), m) == occurrences(given.take(done as int), m) + if km == m { 1nat } else { 0nat });
                }
                assert forall|m: Seq<u32>| #[trigger] count.to_map().dom().contains(m) implies count.to_map()[m]
                    == occurrences(given.take(done + 1), m) by {
                    assert(occurrences(given.take(done + 1), m) == occurrences(given.take(done as int), m) + if km == m { 1nat } else { 0nat });
                }
            }
            done = done + 1;
            assert(values@ =~= given.skip(done as int));
        }
        proof {
            assert(given.take(done as int) =~= given);
        }
        count
    }

    /// Sorts the servers in the order the filter asks for.
    pub fn sort_server(&mut self)
        ensures
            *final(self) == (TeamworkLauncher { servers: final(self).servers, ..*old(self) }),
            resorted(old(self).servers@, final(self).servers@, old(self).filter),
    {
        let mut servers: Vec<Server> = Vec::new();
        std::mem::swap(&mut servers, &mut self.servers);
        self.servers = sorted_servers(servers, self.filter.sort_criterion, self.filter.sort_direction);
    }

    pub fn process_keyboard_message(&mut self, message: KeyboardMessage)
        ensures
            *final(self) == (TeamworkLauncher {
                shift_pressed: message == KeyboardMessage::ShiftPressed,
                ..*old(self)
            }),
    {
        match message {
            KeyboardMessage::ShiftPressed => {
                self.shift_pressed = true;
            },
            KeyboardMessage::ShiftReleased => {
                self.shift_pressed = false;
            },
        }
    }

    /// Applies a change of the filter; a change of order sorts the servers again.
    pub fn process_filter_message(&mut self, message: FilterMessage)
        requires
            old(self).wf(),
        ensures
            final(self).wf(),
            filter_changed(old(self).filter, final(self).filter, message, old(self).shift_pressed),
            match message {
                FilterMessage::SortCriterionChanged(_) | FilterMessage::SortDirectionChanged(_) => {
                    &&& *final(self) == (TeamworkLauncher {
                        filter: final(self).filter,
                        servers: final(self).servers,
                        ..*old(self)
                    })
                    &&& resorted(old(self).servers@, final(self).servers@, final(self).filter)
                },
                _ => *final(self) == (TeamworkLauncher { filter: final(self).filter, ..*old(self) }),
            },
    {
        let resort = match &message {
            FilterMessage::SortCriterionChanged(_) | FilterMessage::SortDirectionChanged(_) => true,
            _ => false,
        };
        apply_filter_message(&mut self.filter, message, self.shift_pressed);
        if resort {
            self.sort_server();
        }
    }
}

/// The text shown when no Steam executable is set.
pub open spec fn no_steam_text() -> Seq<char> {
    "Steam executable not specified.\nSet the Steam executable in the settings."@
}

/// The start of the text shown when a directory could not be opened.
pub open spec fn not_opened_text() -> Seq<char> {
    "Failed to open configuration directory:\n"@
}

/// The text that confirms a copy.
pub open spec fn copied_text() -> Seq<char> {
    "Copied to clipboard!"@
}

/// The text shown when the game runs already.
pub open spec fn already_started_text() -> Seq<char> {
    "The game is already started.\nConnection string copied to clipboard!"@
}

/// The text that confirms a launch.
pub open spec fn starting_text() -> Seq<char> {
    "Starting game!"@
}

/// The console command that joins a server.
pub open spec fn connection_text(ip_port: ((u8, u8, u8, u8), u16)) -> Seq<char> {
    seq!['c', 'o', 'n', 'n', 'e', 'c', 't', ' '] + ip_port_text(ip_port.0, ip_port.1)
}

/// What the window does after a request to copy or to play.
#[derive(Debug)]
pub enum WindowCommand {
    Nothing,
    /// Write the text to the clipboard, then close the window when `close`.
    CopyToClipboard { text: String, close: bool },
    /// Start the game through Steam, joining this server.
    Launch(IpPort),
}

/// The text shown when the game modes could not be fetched.
pub open spec fn game_modes_failure_text() -> Seq<char> {
    "Failed to fetch game modes.\nFiltering by game modes is disabled."@
}

/// The source of the first server at this address.
fn source_of_first(servers: &Vec<Server>, ip_port: &IpPort) -> (r: Option<SourceKey>)
    ensures
        r == first_source_of(servers@, ip_port@),
{
    let mut i: usize = 0;
    assert(servers@.skip(0) =~= servers@);
    while i < servers.len()
        invariant
            i <= servers@.len(),
            first_source_of(servers@.skip(i as int), ip_port@) == first_source_of(servers@, ip_port@),
        decreases servers@.len() - i,
    {
        assert(servers@.skip(i as int).drop_first() =~= servers@.skip(i + 1));
        assert(servers@.skip(i as int)[0] == servers@[i as int]);
        if servers[i].ip_port.same_as(ip_port) {
            return match &servers[i].source_key {
                Some(key) => Some(key.clone()),
                None => None,
            };
        }
        i = i + 1;
    }
    None
}

/// The identifiers of the game modes, in order.
fn mode_ids(records: &Vec<GameModeRecord>) -> (ids: Vec<GameModeId>)
    ensures
        ids@.len() == records@.len(),
        forall|i: int| 0 <= i < ids@.len() ==> (#[trigger] ids@[i]).key_model() == record_key(records@[i]),
{
    let mut ids: Vec<GameModeId> = Vec::new();
    let mut i: usize = 0;
    while i < records.len()
        invariant
            i <= records@.len(),
            ids@.len() == i,
            forall|k: int| 0 <= k < i ==> (#[trigger] ids@[k]).key_model() == record_key(records@[k]),
        decreases records@.len() - i,
    {
        ids.push(GameModeId::new(records[i].id.as_str()));
        i = i + 1;
    }
    ids
}

/// Puts the cached thumbnails into the servers.
fn put_cached_thumbnails(servers: &mut Vec<Server>, cache: &ThumbnailCache)
    requires
        cache.wf(),
    ensures
        thumbnails_now(old(servers)@, final(servers)@, cached_thumbnails(old(servers)@, *cache)),
{
    let ghost expected = cached_thumbnails(old(servers)@, *cache);
    let mut i: usize = 0;
    while i < servers.len()
        invariant
            cache.wf(),
            i <= servers@.len(),
            servers@.len() == old(servers)@.len(),
            expected == cached_thumbnails(old(servers)@, *cache),
            forall|k: int|
                0 <= k < i ==> #[trigger] servers@[k] == (Server { map_thumbnail: servers@[k].map_thumbnail, ..old(servers)@[k] })
                    && promised_bytes(servers@[k].map_thumbnail) == expected[k],
            forall|k: int| i <= k < servers@.len() ==> #[trigger] servers@[k] == old(servers)@[k],
        decreases servers@.len() - i,
    {
        if let Some(image) = cache.get(&servers[i].map) {
            servers[i].map_thumbnail = PromisedValue::Ready(image);
        }
        i = i + 1;
    }
}

proof fn lemma_request_bounds(servers: Seq<Server>, bookmarks: Bookmarks)
    ensures
        maps_to_fetch(bookmarked_first(servers, bookmarks)).len() <= servers.len(),
        unique_addresses(bookmarked_first(servers, bookmarks)).len() <= servers.len(),
{
    let order = bookmarked_first(servers, bookmarks);
    crate::application::servers_summary::lemma_bookmarked_first_len(servers, bookmarks);
    crate::application::servers_summary::lemma_requests_len(order);
}

/// The requests to make for the servers, bookmarked ones first.
fn make_requests(
    servers: &Vec<Server>,
    bookmarks: &Bookmarks,
    thumbnail_service: bool,
    country_service: bool,
    ping_service: bool,
) -> (r: FinishRequests)
    requires
        bookmarks.wf(),
    ensures
        r.thumbnails@.len() <= servers@.len(),
        r.countries@.len() <= servers@.len(),
        r.pings@.len() <= servers@.len(),
        r.thumbnails@.map_values(|m: MapName| m.key_model()) == if thumbnail_service {
            maps_to_fetch(bookmarked_first(servers@, *bookmarks))
        } else {
            Seq::empty()
        },
        addresses_view(r.countries@) == if country_service {
            unique_addresses(bookmarked_first(servers@, *bookmarks))
        } else {
            Seq::empty()
        },
        addresses_view(r.pings@) == if ping_service {
            unique_addresses(bookmarked_first(servers@, *bookmarks))
        } else {
            Seq::empty()
        },
{
    let order = bookmarked_first_order(servers, bookmarks);
    proof {
        lemma_request_bounds(servers@, *bookmarks);
    }
    let thumbnails = if thumbnail_service {
        thumbnails_to_fetch(&order)
    } else {
        Vec::new()
    };
    assert(thumbnails@.map_values(|m: MapName| m.key_model()) =~= if thumbnail_service {
        maps_to_fetch(bookmarked_first(servers@, *bookmarks))
    } else {
        Seq::empty()
    });
    let countries = if country_service {
        addresses_to_query(&order)
    } else {
        Vec::new()
    };
    assert(addresses_view(countries@) =~= if country_service {
        unique_addresses(bookmarked_first(servers@, *bookmarks))
    } else {
        Seq::empty()
    });
    let pings = if ping_service {
        addresses_to_query(&order)
    } else {
        Vec::new()
    };
    assert(addresses_view(pings@) =~= if ping_service {
        unique_addresses(bookmarked_first(servers@, *bookmarks))
    } else {
        Seq::empty()
    });
    FinishRequests { thumbnails, countries, pings }
}

/// Gives `country` to the servers at `ip`.
fn locate_servers(servers: &mut Vec<Server>, ip: &Ipv4Addr, country: &Country)
    ensures
        final(servers)@ == with_country(old(servers)@, ip@, *country),
{
    let mut i: usize = 0;
    while i < servers.len()
        invariant
            i <= servers@.len(),
            servers@.len() == old(servers)@.len(),
            forall|k: int| 0 <= k < i ==> #[trigger] servers@[k] == with_country(old(servers)@, ip@, *country)[k],
            forall|k: int| i <= k < servers@.len() ==> #[trigger] servers@[k] == old(servers)@[k],
        decreases servers@.len() - i,
    {
        if servers[i].ip_port.ip().same_as(ip) {
            servers[i].country = PromisedValue::Ready(country.clone());
        }
        i = i + 1;
    }
    assert(servers@ =~= with_country(old(servers)@, ip@, *country));
}

/// Gives the ping's answer to the servers at `ip`; how many there are.
fn ping_servers(servers: &mut Vec<Server>, ip: &Ipv4Addr, duration: Option<Duration>) -> (found: usize)
    ensures
        final(servers)@ == with_ping(old(servers)@, ip@, duration),
        found == servers_at(old(servers)@, ip@),
{
    let mut found: usize = 0;
    let mut i: usize = 0;
    while i < servers.len()
        invariant
            i <= servers@.len(),
            servers@.len() == old(servers)@.len(),
            found == servers_at(old(servers)@.take(i as int), ip@),
            found <= i,
            forall|k: int| 0 <= k < i ==> #[trigger] servers@[k] == with_ping(old(servers)@, ip@, duration)[k],
            forall|k: int| i <= k < servers@.len() ==> #[trigger] servers@[k] == old(servers)@[k],
        decreases servers@.len() - i,
    {
        assert(old(servers)@.take(i + 1).drop_last() =~= old(servers)@.take(i as int));
        if servers[i].ip_port.ip().same_as(ip) {
            servers[i].ping = PromisedValue::from_option(duration);
            found = found + 1;
        }
        i = i + 1;
    }
    assert(old(servers)@.take(i as int) =~= old(servers)@);
    assert(servers@ =~= with_ping(old(servers)@, ip@, duration));
    found
}

/// Bytes that may have come, by their view.
pub open spec fn optional_bytes(bytes: Option<Vec<u8>>) -> Option<Seq<u8>> {
    match bytes {
        Some(b) => Some(b@),
        None => None,
    }
}

/// Gives a map's thumbnail to the servers on it that have none ready.
fn give_thumbnail(servers: &mut Vec<Server>, map_name: &MapName, thumbnail: &Option<Vec<u8>>)
    ensures
        thumbnails_now(
            old(servers)@,
            final(servers)@,
            with_thumbnail(old(servers)@, map_name@, optional_bytes(*thumbnail)),
        ),
{
    let ghost expected = with_thumbnail(old(servers)@, map_name@, optional_bytes(*thumbnail));
    let mut i: usize = 0;
    while i < servers.len()
        invariant
            i <= servers@.len(),
            servers@.len() == old(servers)@.len(),
            expected == with_thumbnail(old(servers)@, map_name@, optional_bytes(*thumbnail)),
            forall|k: int|
                0 <= k < i ==> #[trigger] servers@[k] == (Server { map_thumbnail: servers@[k].map_thumbnail, ..old(servers)@[k] })
                    && promised_bytes(servers@[k].map_thumbnail) == expected[k],
            forall|k: int| i <= k < servers@.len() ==> #[trigger] servers@[k] == old(servers)@[k],
        decreases servers@.len() - i,
    {
        if text_equal(servers[i].map.as_str(), map_name.as_str()) && !servers[i].map_thumbnail.is_ready() {
            let value = match thumbnail {
                Some(image) => PromisedValue::Ready(copy_bytes(image)),
                None => PromisedValue::Absent,
            };
            servers[i].map_thumbnail = value;
        }
        i = i + 1;
    }
}

/// Clicks a dictionary entry, with or without shift held.
fn click_dictionary<K: OrderedKey>(dictionary: &mut FilterDictionary<K>, key: &K, checked: bool, shift: bool)
    requires
        old(dictionary).wf(),
    ensures
        dictionary_clicked(*old(dictionary), *final(dictionary), key.key_model(), checked, shift),
{
    if shift {
        if dictionary.is_checked(key) {
            dictionary.check_only(key);
        } else {
            dictionary.uncheck_only(key);
        }
    } else {
        dictionary.set_checked(key, checked);
    }
}

/// Changes the filter as a message says.
fn apply_filter_message(filter: &mut Filter, message: FilterMessage, shift: bool)
    requires
        old(filter).wf(),
    ensures
        final(filter).wf(),
        filter_changed(*old(filter), *final(filter), message, shift),
{
    match message {
        FilterMessage::CountryChecked(..) | FilterMessage::GameModeChecked(..) | FilterMessage::MapChecked(..) | FilterMessage::ProviderChecked(..) => apply_choice_message(filter, message, shift),
        FilterMessage::TextChanged(..) | FilterMessage::IgnoreCaseChanged(..) | FilterMessage::IgnoreAccentChanged(..) | FilterMessage::MapNameFilterChanged(..) | FilterMessage::NoCountryChecked(..) | FilterMessage::BookmarkedOnlyChecked(..) => apply_text_message(filter, message, shift),
        FilterMessage::VacSecuredChanged(..) | FilterMessage::RtdChanged(..) | FilterMessage::AllTalkChanged(..) | FilterMessage::NoRespawnTimeChanged(..) | FilterMessage::PasswordChanged(..) | FilterMessage::RandomCritsChanged(..) | FilterMessage::SortCriterionChanged(..) | FilterMessage::SortDirectionChanged(..) => apply_switch_message(filter, message, shift),
        FilterMessage::MaxPingChanged(..) | FilterMessage::AcceptPingTimeoutChanged(..) | FilterMessage::PingFilterEnabled(..) | FilterMessage::CountryFilterEnabled(..) | FilterMessage::GameModeFilterEnabled(..) | FilterMessage::MinimumPlayersChanged(..) | FilterMessage::MinimumFreeSlotsChanged(..) | FilterMessage::PlayerFilterEnabled(..) | FilterMessage::MapFilterEnabled(..) | FilterMessage::ProviderFilterEnabled(..) => apply_toggle_message(filter, message, shift),
    }
}

/// A click on a country, a game mode, a map or a provider.
#[verifier::spinoff_prover]
fn apply_choice_message(filter: &mut Filter, message: FilterMessage, shift: bool)
    requires
        old(filter).wf(),
        message is CountryChecked || message is GameModeChecked || message is MapChecked || message is ProviderChecked,
    ensures
        final(filter).wf(),
        filter_changed(*old(filter), *final(filter), message, shift),
{
    match message {
        FilterMessage::CountryChecked(country, checked) => {
            click_dictionary(&mut filter.country.dictionary, &country, checked, shift);
        },
        FilterMessage::GameModeChecked(id, checked) => {
            click_dictionary(&mut filter.game_modes.dictionary, &id, checked, shift);
        },
        FilterMessage::MapChecked(map, checked) => {
            click_dictionary(&mut filter.maps.dictionary, &map, checked, shift);
        },
        FilterMessage::ProviderChecked(provider, checked) => {
            click_dictionary(&mut filter.providers.dictionary, &provider, checked, false);
        },
        _ => {},
    }
}

/// A change of a text, or of a check box that is no switch of a criterion.
#[verifier::spinoff_prover]
fn apply_text_message(filter: &mut Filter, message: FilterMessage, shift: bool)
    requires
        old(filter).wf(),
        message is TextChanged || message is IgnoreCaseChanged || message is IgnoreAccentChanged || message is MapNameFilterChanged || message is NoCountryChecked || message is BookmarkedOnlyChecked,
    ensures
        final(filter).wf(),
        filter_changed(*old(filter), *final(filter), message, shift),
{
    match message {
        FilterMessage::TextChanged(text) => {
            filter.text.set_text(text.as_str());
        },
        FilterMessage::IgnoreCaseChanged(checked) => {
            filter.text.set_ignore_case(checked);
        },
        FilterMessage::IgnoreAccentChanged(checked) => {
            filter.text.set_ignore_accents(checked);
        },
        FilterMessage::MapNameFilterChanged(text) => {
            filter.maps.text = text;
        },
        FilterMessage::NoCountryChecked(checked) => {
            filter.country.no_countries = checked;
        },
        FilterMessage::BookmarkedOnlyChecked(checked) => {
            filter.bookmarked_only = checked;
        },
        _ => {},
    }
}

/// A change of a property switch or of the order.
#[verifier::spinoff_prover]
fn apply_switch_message(filter: &mut Filter, message: FilterMessage, shift: bool)
    requires
        old(filter).wf(),
        message is VacSecuredChanged || message is RtdChanged || message is AllTalkChanged || message is NoRespawnTimeChanged || message is PasswordChanged || message is RandomCritsChanged || message is SortCriterionChanged || message is SortDirectionChanged,
    ensures
        final(filter).wf(),
        filter_changed(*old(filter), *final(filter), message, shift),
{
    match message {
        FilterMessage::VacSecuredChanged(switch) => {
            filter.vac_secured = switch;
        },
        FilterMessage::RtdChanged(switch) => {
            filter.rtd = switch;
        },
        FilterMessage::AllTalkChanged(switch) => {
            filter.all_talk = switch;
        },
        FilterMessage::NoRespawnTimeChanged(switch) => {
            filter.no_respawn_time = switch;
        },
        FilterMessage::PasswordChanged(switch) => {
            filter.password = switch;
        },
        FilterMessage::RandomCritsChanged(switch) => {
            filter.random_crits = switch;
        },
        FilterMessage::SortCriterionChanged(criterion) => {
            filter.sort_criterion = criterion;
        },
        FilterMessage::SortDirectionChanged(direction) => {
            filter.sort_direction = direction;
        },
        _ => {},
    }
}

/// A change of a bound or of whether a criterion is used.
#[verifier::spinoff_prover]
fn apply_toggle_message(filter: &mut Filter, message: FilterMessage, shift: bool)
    requires
        old(filter).wf(),
        message is MaxPingChanged || message is AcceptPingTimeoutChanged || message is PingFilterEnabled || message is CountryFilterEnabled || message is GameModeFilterEnabled || message is MinimumPlayersChanged || message is MinimumFreeSlotsChanged || message is PlayerFilterEnabled || message is MapFilterEnabled || message is ProviderFilterEnabled,
    ensures
        final(filter).wf(),
        filter_changed(*old(filter), *final(filter), message, shift),
{
    match message {
        FilterMessage::MaxPingChanged(max_ping) => {
            filter.ping.max_ping = max_ping;
        },
        FilterMessage::AcceptPingTimeoutChanged(checked) => {
            filter.ping.accept_ping_timeout = checked;
        },
        FilterMessage::PingFilterEnabled(enabled) => {
            filter.ping.enabled = enabled;
        },
        FilterMessage::CountryFilterEnabled(checked) => {
            filter.country.enabled = checked;
        },
        FilterMessage::GameModeFilterEnabled(checked) => {
            filter.game_modes.enabled = checked;
        },
        FilterMessage::MinimumPlayersChanged(value) => {
            filter.players.minimum_players = value;
        },
        FilterMessage::MinimumFreeSlotsChanged(value) => {
            filter.players.minimum_free_slots = value;
        },
        FilterMessage::PlayerFilterEnabled(enabled) => {
            filter.players.enabled = enabled;
        },
        FilterMessage::MapFilterEnabled(enabled) => {
            filter.maps.enabled = enabled;
        },
        FilterMessage::ProviderFilterEnabled(enabled) => {
            filter.providers.enabled = enabled;
        },
        _ => {},
    }
}


/// A non-empty key without `*` shows nowhere in a text once hidden.
pub proof fn lemma_obfuscated_hides_key(key: Seq<char>, text: Seq<char>)
    requires
        key.len() > 0,
        forall|i: int| 0 <= i < key.len() ==> key[i] != '*',
    ensures
        !contains_text(obfuscated(key, text), key),
{
    crate::text::lemma_replaced_hides(text, key, seq!['*', '*', '*', '*']);
}

} // verus!
