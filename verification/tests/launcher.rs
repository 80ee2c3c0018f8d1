use teamwork_launcher::application::bookmarks::Bookmarks;
use teamwork_launcher::application::country::Country;
use teamwork_launcher::application::filter::filter_servers::Filter;
use teamwork_launcher::application::filter::sort_servers::{SortCriterion, SortDirection};
use teamwork_launcher::application::game_mode::{GameModeId, GameModeRecord};
use teamwork_launcher::application::ip_port::{IpPort, Ipv4Addr};
use teamwork_launcher::application::map::MapName;
use teamwork_launcher::application::message::{
    FetchServersMessage, FilterMessage, GameModesMessage, KeyboardMessage, SettingsMessage,
};
use teamwork_launcher::application::notifications::NotificationKind;
use teamwork_launcher::application::paths::DirPath;
use teamwork_launcher::application::promised_value::PromisedValue;
use teamwork_launcher::application::screens::Screens;
use teamwork_launcher::application::server::{Property, Server};
use teamwork_launcher::application::servers_source::{ServersSource, SourceKey};
use teamwork_launcher::application::teamwork_launcher::{obfuscate_api_key, TeamworkLauncher, WindowCommand};
use teamwork_launcher::application::thumbnail::ThumbnailCache;
use teamwork_launcher::application::user_settings::{UserSettings, WindowSettings};
use teamwork_launcher::time::Duration;

fn launcher(key: &str) -> TeamworkLauncher {
    let mut settings = UserSettings::new("/usr/bin/steam");
    settings.set_teamwork_api_key(key.to_string());
    TeamworkLauncher::new(
        settings,
        None,
        Filter::default(),
        vec![ServersSource::new("Payload", "https://example.org/payload"), ServersSource::new("Koth", "https://example.org/koth")],
        Bookmarks::new(),
        ThumbnailCache::new(DirPath::new(vec!["cache".to_string()])),
        false,
    )
}

fn server(name: &str, ip: [u8; 4], port: u16, map: &str, players: u8) -> Server {
    Server {
        name: name.to_string(),
        ip_port: IpPort::new(Ipv4Addr::new(ip[0], ip[1], ip[2], ip[3]), port),
        map: MapName::new(map),
        current_players_count: players,
        max_players_count: 24,
        provider: "provider".to_string(),
        source_key: Some(SourceKey::new("https://example.org/payload")),
        ..Default::default()
    }
}

fn names(launcher: &TeamworkLauncher) -> Vec<String> {
    launcher.servers.iter().map(|s| s.name.clone()).collect()
}

#[test]
fn a_launcher_without_key_shows_an_error() {
    let launcher = launcher("");

    let notification = launcher.notifications.current().expect("a notification");
    assert_eq!(notification.text, "No Teamwork.tf API key specified.\nSet your API key in the settings.");
    assert_eq!(notification.kind, NotificationKind::Error);
    assert!(matches!(launcher.views.current(), Some(Screens::Main)));
    assert_eq!(launcher.title(), "Teamwork launcher");
}

#[test]
fn a_launcher_with_key_shows_nothing() {
    let launcher = launcher("secret");

    assert!(launcher.notifications.current().is_none());
}

#[test]
fn refresh_without_key_is_answered_by_the_error() {
    let mut launcher = launcher("");

    launcher.notifications.clear_current();
    launcher.refresh_servers();

    assert!(!launcher.is_loading_servers);
    assert_eq!(launcher.fetch_servers_subscription_id, 0);
    assert_eq!(
        launcher.notifications.current().map(|n| n.text.clone()),
        Some("No Teamwork.tf API key specified.\nSet your API key in the settings.".to_string())
    );
}

#[test]
fn refresh_with_key_starts_a_new_fetch() {
    let mut launcher = launcher("secret");

    launcher.new_servers(vec![server("a", [1, 1, 1, 1], 1, "pl_upward", 3)]);
    launcher.refresh_servers();

    assert!(launcher.is_loading_servers);
    assert_eq!(launcher.fetch_servers_subscription_id, 1);
    assert!(launcher.servers.is_empty());
    assert_eq!(launcher.progress.total(), 0);
}

#[test]
fn new_servers_are_sorted_by_address() {
    let mut launcher = launcher("secret");

    launcher.new_servers(vec![server("b", [2, 0, 0, 1], 1, "m", 0), server("a", [1, 0, 0, 1], 1, "m", 0)]);
    launcher.new_servers(vec![server("c", [1, 5, 0, 1], 1, "m", 0)]);

    assert_eq!(names(&launcher), vec!["a", "c", "b"]);
}

#[test]
fn changing_the_order_sorts_the_servers_again_keeping_ties_in_order() {
    let mut launcher = launcher("secret");

    launcher.new_servers(vec![
        server("first", [1, 0, 0, 1], 1, "m", 5),
        server("second", [1, 0, 0, 2], 1, "m", 9),
        server("third", [1, 0, 0, 3], 1, "m", 5),
    ]);
    launcher.process_filter_message(FilterMessage::SortCriterionChanged(SortCriterion::Players));
    assert_eq!(names(&launcher), vec!["first", "third", "second"]);

    launcher.process_filter_message(FilterMessage::SortDirectionChanged(SortDirection::Descending));
    assert_eq!(names(&launcher), vec!["second", "first", "third"]);
}

#[test]
fn a_click_with_shift_keeps_only_that_choice() {
    let mut launcher = launcher("secret");
    let fr = Country::new("FR");
    let de = Country::new("DE");

    launcher.filter.country.dictionary.add(fr.clone());
    launcher.filter.country.dictionary.add(de.clone());
    launcher.process_keyboard_message(KeyboardMessage::ShiftPressed);
    launcher.process_filter_message(FilterMessage::CountryChecked(fr.clone(), false));
    assert!(launcher.filter.country.dictionary.is_checked(&fr));
    assert!(!launcher.filter.country.dictionary.is_checked(&de));

    launcher.process_filter_message(FilterMessage::CountryChecked(de.clone(), true));
    assert!(launcher.filter.country.dictionary.is_checked(&fr));
    assert!(!launcher.filter.country.dictionary.is_checked(&de));

    launcher.process_keyboard_message(KeyboardMessage::ShiftReleased);
    launcher.process_filter_message(FilterMessage::CountryChecked(de.clone(), true));
    assert!(launcher.filter.country.dictionary.is_checked(&de));
}

#[test]
fn filter_messages_change_their_criterion() {
    let mut launcher = launcher("secret");

    launcher.process_filter_message(FilterMessage::TextChanged("Skial".to_string()));
    launcher.process_filter_message(FilterMessage::MaxPingChanged(80));
    launcher.process_filter_message(FilterMessage::MinimumPlayersChanged(4));
    launcher.process_filter_message(FilterMessage::MapNameFilterChanged("pl_".to_string()));
    launcher.process_filter_message(FilterMessage::BookmarkedOnlyChecked(true));

    assert_eq!(launcher.filter.text.text(), "Skial");
    assert_eq!(launcher.filter.ping.max_ping, 80);
    assert_eq!(launcher.filter.players.minimum_players, 4);
    assert_eq!(launcher.filter.maps.text, "pl_");
    assert!(launcher.filter.bookmarked_only);
}

#[test]
fn finishing_a_fetch_counts_and_asks_for_what_is_missing() {
    let mut launcher = launcher("secret");
    let mut upward = server("a", [1, 0, 0, 1], 1, "pl_upward", 7);
    upward.country = PromisedValue::Ready(Country::new("FR"));
    upward.need_password = true;
    upward.vac_secured = true;
    let mut badwater = server("b", [1, 0, 0, 1], 2, "pl_badwater", 3);
    badwater.ping = PromisedValue::Loading;
    badwater.vac_secured = true;
    badwater.game_modes = vec![GameModeId::new("payload")];
    let mut third = server("c", [2, 0, 0, 1], 1, "pl_upward", 12);
    third.max_players_count = 32;
    launcher.thumbnails_cache.insert(MapName::new("pl_badwater"), vec![1, 2, 3]);
    launcher.bookmarks.add(IpPort::new(Ipv4Addr::new(2, 0, 0, 1), 1), SourceKey::new("s"));
    launcher.new_servers(vec![upward, badwater, third]);

    let requests = launcher.on_finish(true, true, false);

    assert!(!launcher.is_loading_servers);
    assert_eq!(requests.thumbnails.iter().map(|m| m.as_str().to_string()).collect::<Vec<_>>(), vec!["pl_upward"]);
    assert_eq!(
        requests.countries.iter().map(|ip| ip.to_string()).collect::<Vec<_>>(),
        vec!["2.0.0.1", "1.0.0.1"]
    );
    assert!(requests.pings.is_empty());
    assert_eq!(launcher.progress.total(), 3);
    assert_eq!(launcher.servers_counts.bookmarks, 1);
    assert_eq!(launcher.servers_counts.timeouts, 2);
    assert_eq!(launcher.servers_counts.countries.get(&Country::new("FR")), Some(&1));
    assert_eq!(launcher.servers_counts.properties.get(&Property::Password), Some(&1));
    assert_eq!(launcher.servers_counts.properties.get(&Property::VacSecured), Some(&2));
    assert_eq!(launcher.servers_counts.maps.get(&MapName::new("pl_upward")), Some(&2));
    assert_eq!(launcher.servers_counts.game_modes.get(&GameModeId::new("payload")), Some(&1));
    assert_eq!(launcher.filter.players.maximum_players, 12);
    assert_eq!(launcher.filter.players.maximum_free_slots, 32);
    assert!(launcher.filter.maps.dictionary.is_checked(&MapName::new("pl_badwater")));
    assert!(launcher.filter.providers.dictionary.is_checked(&"provider".to_string()));
    let badwater = launcher.servers.iter().find(|s| s.name == "b").unwrap();
    assert_eq!(badwater.map_thumbnail, PromisedValue::Ready(vec![1, 2, 3]));
}

#[test]
fn a_country_found_goes_to_every_server_at_the_address() {
    let mut launcher = launcher("secret");
    launcher.new_servers(vec![server("a", [1, 0, 0, 1], 1, "m", 0), server("b", [1, 0, 0, 1], 2, "m", 0), server("c", [3, 0, 0, 1], 1, "m", 0)]);

    launcher.country_found(Ipv4Addr::new(1, 0, 0, 1), Country::new("DE"));

    let located = launcher.servers.iter().filter(|s| s.country == PromisedValue::Ready(Country::new("DE"))).count();
    assert_eq!(located, 2);
    assert_eq!(launcher.servers_counts.countries.get(&Country::new("DE")), Some(&1));
    assert!(launcher.filter.country.dictionary.is_checked(&Country::new("DE")));
    assert_eq!(launcher.progress.current(), 1);
}

#[test]
fn a_ping_timeout_is_counted_for_each_server_at_the_address() {
    let mut launcher = launcher("secret");
    launcher.new_servers(vec![server("a", [1, 0, 0, 1], 1, "m", 0), server("b", [1, 0, 0, 1], 2, "m", 0)]);

    launcher.ping_found(Ipv4Addr::new(1, 0, 0, 1), None);
    assert_eq!(launcher.servers_counts.timeouts, 2);
    assert!(launcher.servers.iter().all(|s| s.ping == PromisedValue::Absent));

    launcher.ping_found(Ipv4Addr::new(1, 0, 0, 1), Some(Duration::from_millis(30)));
    assert_eq!(launcher.servers_counts.timeouts, 2);
    assert!(launcher.servers.iter().all(|s| s.ping == PromisedValue::Ready(Duration::from_millis(30))));
}

#[test]
fn a_thumbnail_is_cached_and_given_to_servers_without_one() {
    let mut launcher = launcher("secret");
    let mut ready = server("a", [1, 0, 0, 1], 1, "ctf_2fort", 0);
    ready.map_thumbnail = PromisedValue::Ready(vec![9]);
    launcher.new_servers(vec![ready, server("b", [1, 0, 0, 2], 1, "ctf_2fort", 0), server("c", [1, 0, 0, 3], 1, "koth_viaduct", 0)]);

    launcher.thumbnail_ready(MapName::new("ctf_2fort"), Some(vec![4, 2]));

    assert_eq!(launcher.servers[0].map_thumbnail, PromisedValue::Ready(vec![9]));
    assert_eq!(launcher.servers[1].map_thumbnail, PromisedValue::Ready(vec![4, 2]));
    assert_eq!(launcher.servers[2].map_thumbnail, PromisedValue::Absent);
    assert_eq!(launcher.thumbnails_cache.get(&MapName::new("ctf_2fort")), Some(vec![4, 2]));
}

#[test]
fn bookmarking_needs_a_server_with_a_source() {
    let mut launcher = launcher("secret");
    let mut sourceless = server("x", [5, 0, 0, 1], 1, "m", 0);
    sourceless.source_key = None;
    launcher.new_servers(vec![server("a", [1, 0, 0, 1], 1, "m", 0), sourceless]);

    let address = IpPort::new(Ipv4Addr::new(1, 0, 0, 1), 1);
    launcher.bookmark(address, true);
    assert!(launcher.bookmarks.is_bookmarked(&address));
    assert_eq!(launcher.servers_counts.bookmarks, 1);

    let other = IpPort::new(Ipv4Addr::new(5, 0, 0, 1), 1);
    launcher.bookmark(other, true);
    assert!(!launcher.bookmarks.is_bookmarked(&other));
    assert_eq!(launcher.servers_counts.bookmarks, 1);

    launcher.bookmark(address, false);
    assert!(!launcher.bookmarks.is_bookmarked(&address));
    assert_eq!(launcher.servers_counts.bookmarks, 0);
}

#[test]
fn the_enabled_sources_are_fetched_with_the_key() {
    let mut launcher = launcher("secret");

    launcher.process_settings_message(SettingsMessage::SourceEnabled(SourceKey::new("https://example.org/payload"), false));
    let urls = launcher.get_sources_urls();

    assert_eq!(urls.len(), 1);
    assert_eq!(urls[0].0.as_str(), "https://example.org/koth");
    assert_eq!(urls[0].1, "https://example.org/koth");
    assert_eq!(urls[0].2, "secret");
}

#[test]
fn sources_with_more_bookmarked_servers_are_fetched_first() {
    let mut launcher = launcher("secret");
    let mut koth = server("k", [3, 0, 0, 1], 1, "koth_viaduct", 5);
    koth.source_key = Some(SourceKey::new("https://example.org/koth"));
    let payload = server("p", [4, 0, 0, 1], 1, "pl_upward", 5);
    launcher.new_servers(vec![koth, payload]);
    launcher.bookmark(IpPort::new(Ipv4Addr::new(3, 0, 0, 1), 1), true);

    let urls = launcher.get_sources_urls();
    let keys: Vec<&str> = urls.iter().map(|u| u.0.as_str()).collect();
    assert_eq!(keys, vec!["https://example.org/koth", "https://example.org/payload"]);
}

#[test]
fn settings_messages_change_the_settings() {
    let mut launcher = launcher("secret");
    launcher.user_settings.window = Some(WindowSettings::default());

    launcher.process_settings_message(SettingsMessage::TeamworkApiKeyChanged("other".to_string()));
    launcher.process_settings_message(SettingsMessage::WindowMoved { x: 10, y: 20 });
    launcher.process_settings_message(SettingsMessage::WindowResized { width: 800, height: 600 });
    launcher.process_settings_message(SettingsMessage::MaxCacheSizeChanged(64));
    launcher.process_settings_message(SettingsMessage::QuitWhenCopyChecked(true));

    assert_eq!(launcher.teamwork_api_key(), "other");
    assert_eq!(
        launcher.user_settings.window,
        Some(WindowSettings { window_x: 10, window_y: 20, window_width: 800, window_height: 600 })
    );
    assert_eq!(launcher.user_settings.max_thumbnails_cache_size_mb, 64);
    assert!(launcher.user_settings.quit_on_copy);
}

#[test]
fn the_key_from_the_environment_wins() {
    let mut settings = UserSettings::new("");
    settings.set_teamwork_api_key("stored".to_string());
    let launcher = TeamworkLauncher::new(
        settings,
        Some("from env".to_string()),
        Filter::default(),
        vec![],
        Bookmarks::new(),
        ThumbnailCache::new(DirPath::new(vec![])),
        true,
    );

    assert_eq!(launcher.teamwork_api_key(), "from env");
    assert_eq!(launcher.title(), "Teamwork launcher - TESTING MODE");
}

#[test]
fn game_modes_join_the_filter_and_a_failure_is_shown() {
    let mut launcher = launcher("secret");
    let record = |id: &str, title: &str| GameModeRecord {
        id: id.to_string(),
        title: title.to_string(),
        description: String::new(),
        color: None,
    };

    launcher.process_game_modes_message(GameModesMessage::GameModes(vec![record("payload", "Payload"), record("koth", "King"), record("payload", "Payload 2")]));
    assert_eq!(launcher.game_modes.get(&GameModeId::new("payload")).map(|m| m.title.clone()), Some("Payload 2".to_string()));
    assert!(launcher.filter.game_modes.dictionary.is_checked(&GameModeId::new("koth")));

    launcher.process_game_modes_message(GameModesMessage::Error("timeout with secret".to_string()));
    assert_eq!(
        launcher.notifications.current().map(|n| n.text.clone()),
        Some("Failed to fetch game modes.\nFiltering by game modes is disabled.".to_string())
    );
}

#[test]
fn the_api_key_is_hidden() {
    assert_eq!(obfuscate_api_key("abc", "url?key=abc&x=abcabc"), "url?key=****&x=********");
    assert_eq!(obfuscate_api_key("", "nothing to hide"), "nothing to hide");

    let mut launcher = launcher("k3y");
    launcher.push_notification("bad k3y", NotificationKind::Error);
    assert_eq!(launcher.notifications.current().map(|n| n.text.clone()), Some("bad ****".to_string()));
}

#[test]
fn launching_needs_a_steam_executable() {
    let mut launcher = launcher("secret");
    assert!(launcher.launch_game());

    launcher.process_settings_message(SettingsMessage::SteamExecutableChanged("  ".to_string()));
    assert!(!launcher.launch_game());
    assert_eq!(
        launcher.notifications.current().map(|n| n.text.clone()),
        Some("Steam executable not specified.\nSet the Steam executable in the settings.".to_string())
    );
}

#[test]
fn going_back_with_nothing_loaded_refreshes() {
    let mut launcher = launcher("secret");
    launcher.show_settings();
    assert!(matches!(launcher.views.current(), Some(Screens::Settings)));

    launcher.go_back();

    assert!(matches!(launcher.views.current(), Some(Screens::Main)));
    assert!(launcher.is_loading_servers);
}

#[test]
fn fetch_messages_add_servers_then_finish() {
    let mut launcher = launcher("secret");

    assert!(launcher.process_server_message(FetchServersMessage::FetchServersStart, true, true, true).is_none());
    assert!(launcher
        .process_server_message(FetchServersMessage::NewServers(vec![server("a", [1, 0, 0, 1], 1, "m", 0)]), true, true, true)
        .is_none());
    let requests = launcher.process_server_message(FetchServersMessage::FetchServersFinish, true, true, true).unwrap();

    assert_eq!(requests.thumbnails.len(), 1);
    assert_eq!(requests.countries.len(), 1);
    assert_eq!(requests.pings.len(), 1);
    assert_eq!(launcher.progress.total(), 3);
}

#[test]
fn copying_the_connection_string_is_confirmed() {
    let mut launcher = launcher("key");
    let command = launcher.copy_connection(IpPort::new(Ipv4Addr::new(10, 0, 0, 1), 27015));
    match command {
        WindowCommand::CopyToClipboard { text, close } => {
            assert_eq!(text, "connect 10.0.0.1:27015");
            assert!(!close);
        }
        other => panic!("unexpected command {:?}", other),
    }
    assert_eq!(launcher.notifications.current().expect("a notification").text, "Copied to clipboard!");
}

#[test]
fn a_running_game_gets_the_connection_string() {
    let mut launcher = launcher("key");
    launcher.user_settings.quit_on_copy = true;
    let command = launcher.request_launch(IpPort::new(Ipv4Addr::new(10, 0, 0, 1), 27015), true);
    assert!(matches!(command, WindowCommand::CopyToClipboard { close: true, .. }));
    assert_eq!(
        launcher.notifications.current().expect("a notification").text,
        "The game is already started.\nConnection string copied to clipboard!"
    );
}

#[test]
fn the_game_is_launched_only_with_steam_known() {
    let mut launcher = launcher("key");
    let ip_port = IpPort::new(Ipv4Addr::new(10, 0, 0, 1), 27015);
    assert!(matches!(launcher.request_launch(ip_port.clone(), false), WindowCommand::Launch(_)));
    assert!(launcher.notifications.current().is_none());

    launcher.user_settings.steam_executable_path = "  ".to_string();
    assert!(matches!(launcher.request_launch(ip_port, false), WindowCommand::Nothing));
    let notification = launcher.notifications.current().expect("a notification");
    assert_eq!(notification.text, "Steam executable not specified.\nSet the Steam executable in the settings.");
    assert_eq!(notification.kind, NotificationKind::Error);
}

#[test]
fn a_launch_is_confirmed_or_its_failure_shown() {
    let mut started = launcher("secret");
    started.user_settings.quit_on_launch = true;
    assert!(started.game_launched(Ok(())));
    assert_eq!(started.notifications.current().expect("a notification").text, "Starting game!");

    let mut failed = launcher("secret");
    assert!(!failed.game_launched(Err("no steam at secret".to_string())));
    let notification = failed.notifications.current().expect("a notification");
    assert_eq!(notification.text, "no steam at ****");
    assert_eq!(notification.kind, NotificationKind::Error);
}

#[test]
fn each_property_counts_the_servers_that_have_it() {
    let servers = vec![
        Server { need_password: true, vac_secured: true, ..Default::default() },
        Server { vac_secured: true, has_rtd: true, ..Default::default() },
    ];
    let count = TeamworkLauncher::count_properties(&servers);
    assert_eq!(count.get(&Property::Password), Some(&1));
    assert_eq!(count.get(&Property::VacSecured), Some(&2));
    assert_eq!(count.get(&Property::Rtd), Some(&1));
    assert_eq!(count.get(&Property::AllTalk), None);
}

#[test]
fn a_directory_that_cannot_be_opened_is_reported() {
    let mut launcher = launcher("secret");
    launcher.directory_not_opened("no viewer for secret");
    let notification = launcher.notifications.current().expect("a notification");
    assert_eq!(notification.text, "Failed to open configuration directory:\nno viewer for ****");
    assert_eq!(notification.kind, NotificationKind::Error);
}
