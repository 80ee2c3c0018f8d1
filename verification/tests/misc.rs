use teamwork_launcher::advanced_filter::{default_as_true, AdvancedServerFilter};
use teamwork_launcher::announces::{Announce, AnnounceQueue};
use teamwork_launcher::application::map::MapName;
use teamwork_launcher::application::paths::DirPath;
use teamwork_launcher::application::progress::Progress;
use teamwork_launcher::application::promised_value::PromisedValue;
use teamwork_launcher::application::server::Server;
use teamwork_launcher::application::fetch_servers::{from_source, in_chunks};
use teamwork_launcher::application::servers_source::SourceKey;
use teamwork_launcher::application::thumbnail::{thumbnail_fetched, ThumbnailCache, ThumbnailFetch};
use teamwork_launcher::application::user_settings::{UserSettings, WindowSettings};
use teamwork_launcher::servers_provider::GetServersInfosError;
use teamwork_launcher::startup::{cache_size_bytes, default_servers_sources, window_to_open};
use teamwork_launcher::time::Duration;

#[test]
fn announces_come_out_oldest_first_and_once() {
    let mut queue = AnnounceQueue::default();
    assert!(queue.current().is_none());

    queue.push(Announce::new("first", "a"));
    queue.push(Announce::new("second", "b"));
    queue.push(Announce::new("first", "a"));

    assert_eq!(queue.current().map(|a| a.title.clone()), Some("first".to_string()));
    queue.pop();
    assert_eq!(queue.current().map(|a| a.title.clone()), Some("second".to_string()));
    queue.pop();
    assert!(queue.current().is_none());
    queue.pop();
    assert!(queue.current().is_none());
}

#[test]
fn advanced_filter_needs_players_and_a_ping() {
    let filter = AdvancedServerFilter { minimum_players_count: 2, with_valid_ping: default_as_true() };
    let mut server = Server { current_players_count: 2, ..Default::default() };

    assert!(!filter.accept_server(&server));
    server.ping = PromisedValue::Ready(Duration::from_millis(20));
    assert!(filter.accept_server(&server));
    server.current_players_count = 1;
    assert!(!filter.accept_server(&server));
    assert!(AdvancedServerFilter::default().accept_server(&Server::default()));
}

#[test]
fn the_cache_writes_images_until_the_limit_is_reached() {
    let mut cache = ThumbnailCache::new(DirPath::new(vec!["cache".to_string()]));
    cache.insert(MapName::new("b"), vec![0; 3]);
    cache.insert(MapName::new("a"), vec![0; 5]);
    cache.insert(MapName::new("c"), vec![0; 1]);

    let all = cache.files_to_write(0);
    assert_eq!(all.len(), 3);
    assert_eq!(all[0].0.components().clone(), vec!["cache".to_string(), "a".to_string()]);

    assert_eq!(cache.files_to_write(5).len(), 1);
    assert_eq!(cache.files_to_write(6).len(), 2);
    assert_eq!(cache.files_to_write(8).len(), 2);
    assert_eq!(cache.files_to_write(9).len(), 3);
    assert_eq!(cache.len(), 3);
}

#[test]
fn startup_gives_the_default_sources_and_window() {
    let sources = default_servers_sources();
    assert_eq!(sources.len(), 7);
    assert_eq!(sources[0].display_name(), "Payload");
    assert_eq!(sources[6].url(), "https://teamwork.tf/api/v1/quickplay/medieval-mode/servers");
    assert!(sources.iter().all(|s| s.enabled()));

    let mut settings = UserSettings::new("steam");
    assert_eq!(window_to_open(&mut settings), None);
    assert_eq!(settings.window, Some(WindowSettings::default()));
    settings.window = Some(WindowSettings { window_x: 1, window_y: 2, window_width: 3, window_height: 4 });
    assert_eq!(window_to_open(&mut settings), settings.window);
    assert_eq!(cache_size_bytes(20), 20 * 1024 * 1024);
}

#[test]
fn a_source_failure_names_the_source() {
    let error = GetServersInfosError { source_name: "Skial".to_string(), message: "timeout".to_string() };

    assert_eq!(error.to_string(), "Failed to get servers information from source 'Skial': timeout");
}

#[test]
fn servers_are_handed_on_in_chunks_of_fifty() {
    let servers: Vec<Server> = (0..120).map(|i| Server { name: i.to_string(), ..Default::default() }).collect();
    let chunks = in_chunks(servers);
    assert_eq!(chunks.iter().map(|c| c.len()).collect::<Vec<_>>(), vec![50, 50, 20]);
    assert_eq!(chunks[1][0].name, "50");
    assert!(in_chunks(Vec::new()).is_empty());
}

#[test]
fn servers_are_marked_with_their_source() {
    let servers = vec![Server { name: "a".to_string(), ..Default::default() }];
    let marked = from_source(servers, &SourceKey::new("https://example.org/koth"));
    assert_eq!(marked[0].source_key.as_ref().map(|k| k.as_str()), Some("https://example.org/koth"));
    assert_eq!(marked[0].name, "a");
}

#[test]
fn a_failed_thumbnail_is_asked_for_again_after_a_wait() {
    let answer = thumbnail_fetched(MapName::new("pl_upward"), ThumbnailFetch::TooManyAttempts("too many".to_string()));
    assert!(matches!(answer.report, Err((ref m, ref e)) if m.as_str() == "pl_upward" && e == "too many"));
    assert_eq!(answer.retry.map(|m| m.as_str().to_string()), Some("pl_upward".to_string()));
    assert_eq!(answer.wait.map(|d| d.as_millis()), Some(60_000));

    let answer = thumbnail_fetched(MapName::new("pl_upward"), ThumbnailFetch::Failed("down".to_string()));
    assert_eq!(answer.wait.map(|d| d.as_millis()), Some(5_000));

    let answer = thumbnail_fetched(MapName::new("pl_upward"), ThumbnailFetch::Fetched(vec![1, 2]));
    assert!(matches!(answer.report, Ok((_, ref image)) if image == &vec![1, 2]));
    assert!(answer.retry.is_none() && answer.wait.is_none());
}

#[test]
fn progress_is_finished_when_every_request_is_answered() {
    let mut progress = Progress::default();
    assert!(progress.is_finished());
    progress.increment_total();
    progress.increment_total();
    progress.increment_current();
    assert!(!progress.is_finished());
    progress.increment_current();
    assert!(progress.is_finished());
    progress.reset();
    assert!(progress.is_finished());
    assert_eq!((progress.current(), progress.total()), (0, 0));
}

#[test]
fn an_empty_pattern_is_replaced_around_each_character() {
    let replaced: String = teamwork_launcher::text::replace_text("abc", "", "X").into_iter().collect();
    assert_eq!(replaced, "abc".replace("", "X"));
    let replaced: String = teamwork_launcher::text::replace_text("a key here", "key", "***").into_iter().collect();
    assert_eq!(replaced, "a *** here");
}
