use teamwork_launcher::application::filter::game_mode_filter::GameModeFilter as ModesFilter;
use teamwork_launcher::application::game_mode::{GameModeId, GameModeRecord};
use teamwork_launcher::application::game_mode_filter::GameModeFilter;
use teamwork_launcher::application::ip_port::{IpPort, Ipv4Addr};
use teamwork_launcher::application::server::Server;

#[test]
fn game_mode_filter_test_accept() {
    let mut filter = ModesFilter::default();
    let gma = GameModeRecord {
        id: "a".to_string(),
        title: "A".to_string(),
        description: "A desc".to_string(),
        color: None,
    };
    let gmb = GameModeRecord {
        id: "b".to_string(),
        title: "B".to_string(),
        description: "B desc".to_string(),
        color: None,
    };

    filter.dictionary.add(GameModeId::new(&gma.id));
    filter.dictionary.add(GameModeId::new(&gmb.id));

    let server_gma = Server {
        name: "hey".to_string(),
        max_players_count: 0,
        current_players_count: 0,
        map: Default::default(),
        map_thumbnail: Default::default(),
        ip_port: IpPort::new(Ipv4Addr::new(127, 0, 0, 1), 12345),
        country: Default::default(),
        ping: Default::default(),
        source_key: None,
        game_modes: vec![GameModeId::new(&gma.id)],
        ..Default::default()
    };

    let server_gmb = Server {
        name: "hoy".to_string(),
        max_players_count: 0,
        current_players_count: 0,
        map: Default::default(),
        map_thumbnail: Default::default(),
        ip_port: IpPort::new(Ipv4Addr::new(127, 0, 0, 1), 567),
        country: Default::default(),
        ping: Default::default(),
        source_key: None,
        game_modes: vec![GameModeId::new(&gmb.id)],
        ..Default::default()
    };

    filter.enabled = true;
    filter.dictionary.set_checked(&GameModeId::new(&gma.id), true);
    filter.dictionary.set_checked(&GameModeId::new(&gmb.id), false);

    assert_eq!(filter.accept(&server_gma), true);
    assert_eq!(filter.accept(&server_gmb), false);
}

#[test]
fn test_accept() {
    let mut filter = GameModeFilter::new();
    let gma = GameModeRecord {
        id: "a".to_string(),
        title: "A".to_string(),
        description: "A desc".to_string(),
        color: None,
    };
    let gmb = GameModeRecord {
        id: "b".to_string(),
        title: "A".to_string(),
        description: "A desc".to_string(),
        color: None,
    };

    filter.reset(&vec![gma.clone(), gmb.clone()]);

    let server_gma = Server {
        name: "hey".to_string(),
        max_players_count: 0,
        current_players_count: 0,
        map: Default::default(),
        map_thumbnail: Default::default(),
        ip_port: IpPort::new(Ipv4Addr::new(127, 0, 0, 1), 12345),
        country: Default::default(),
        ping: Default::default(),
        source_key: None,
        game_modes: vec![GameModeId::new(&gma.id)],
        ..Default::default()
    };

    let server_gmb = Server {
        name: "hoy".to_string(),
        max_players_count: 0,
        current_players_count: 0,
        map: Default::default(),
        map_thumbnail: Default::default(),
        ip_port: IpPort::new(Ipv4Addr::new(127, 0, 0, 1), 567),
        country: Default::default(),
        ping: Default::default(),
        source_key: None,
        game_modes: vec![GameModeId::new(&gmb.id)],
        ..Default::default()
    };

    filter.set_enabled(true);
    filter.set_mode_enabled(&GameModeId::new(&gma.id), true);
    filter.set_mode_enabled(&GameModeId::new(&gmb.id), false);

    assert_eq!(filter.accept(&server_gma), true);
    assert_eq!(filter.accept(&server_gmb), false);
}

#[test]
fn a_disabled_game_mode_filter_accepts_every_server() {
    let filter = ModesFilter::default();
    let server = Server { game_modes: vec![GameModeId::new("x")], ..Default::default() };

    assert!(filter.accept(&server));
}

#[test]
fn reset_keeps_the_state_of_known_modes() {
    let mut filter = GameModeFilter::new();
    let record = |id: &str| GameModeRecord {
        id: id.to_string(),
        title: String::new(),
        description: String::new(),
        color: None,
    };

    filter.reset(&vec![record("a")]);
    filter.set_mode_enabled(&GameModeId::new("a"), false);
    filter.reset(&vec![record("a"), record("b")]);

    assert!(!filter.is_mode_enabled(&GameModeId::new("a")));
    assert!(filter.is_mode_enabled(&GameModeId::new("b")));
    assert!(!filter.is_mode_enabled(&GameModeId::new("c")));
}
