use teamwork_launcher::application::blacklist::{import_entries, Blacklist, BlacklistEntry};
use teamwork_launcher::application::ip_port::{IpPort, Ipv4Addr};
use teamwork_launcher::application::server::Server;

#[test]
fn test_blacklist_by_ip() {
    let accepted_server = Server {
        name: "test 2".to_string(),
        max_players_count: 0,
        current_players_count: 0,
        map: Default::default(),
        next_map: None,
        map_thumbnail: Default::default(),
        ip_port: IpPort::new(Ipv4Addr::new(4, 3, 2, 1), 1234),
        country: Default::default(),
        ping: Default::default(),
        source_key: None,
        game_modes: vec![],
        provider: "".to_string(),
        vac_secured: false,
        has_rtd: false,
        has_no_respawn_time: false,
        has_all_talk: false,
        has_random_crits: false,
        need_password: false,
    };
    let rejected_server = Server {
        name: "test".to_string(),
        max_players_count: 0,
        current_players_count: 0,
        map: Default::default(),
        next_map: None,
        map_thumbnail: Default::default(),
        ip_port: IpPort::new(Ipv4Addr::new(1, 2, 3, 4), 1234),
        country: Default::default(),
        ping: Default::default(),
        source_key: None,
        game_modes: vec![],
        provider: "".to_string(),
        vac_secured: false,
        has_rtd: false,
        has_no_respawn_time: false,
        has_all_talk: false,
        has_random_crits: false,
        need_password: false,
    };
    let mut blacklist = Blacklist::default();

    blacklist.push(BlacklistEntry::Ip(Ipv4Addr::new(1, 2, 3, 4)));

    assert_eq!(false, blacklist.accept(&rejected_server));
    assert_eq!(true, blacklist.accept(&accepted_server));
}

#[test]
fn test_blacklist_by_ip_port() {
    let accepted_server = Server {
        name: "test 2".to_string(),
        max_players_count: 0,
        current_players_count: 0,
        map: Default::default(),
        next_map: None,
        map_thumbnail: Default::default(),
        ip_port: IpPort::new(Ipv4Addr::new(1, 2, 3, 4), 421),
        country: Default::default(),
        ping: Default::default(),
        source_key: None,
        game_modes: vec![],
        provider: "".to_string(),
        vac_secured: false,
        has_rtd: false,
        has_no_respawn_time: false,
        has_all_talk: false,
        has_random_crits: false,
        need_password: false,
    };
    let rejected_server = Server {
        name: "test".to_string(),
        max_players_count: 0,
        current_players_count: 0,
        map: Default::default(),
        next_map: None,
        map_thumbnail: Default::default(),
        ip_port: IpPort::new(Ipv4Addr::new(1, 2, 3, 4), 1234),
        country: Default::default(),
        ping: Default::default(),
        source_key: None,
        game_modes: vec![],
        provider: "".to_string(),
        vac_secured: false,
        has_rtd: false,
        has_no_respawn_time: false,
        has_all_talk: false,
        has_random_crits: false,
        need_password: false,
    };
    let mut blacklist = Blacklist::default();

    blacklist.push(BlacklistEntry::IpPort(IpPort::new(Ipv4Addr::new(1, 2, 3, 4), 1234)));

    assert_eq!(false, blacklist.accept(&rejected_server));
    assert_eq!(true, blacklist.accept(&accepted_server));
}

#[test]
fn test_blacklist_by_text_port() {
    let accepted_server = Server {
        name: "test 2".to_string(),
        max_players_count: 0,
        current_players_count: 0,
        map: Default::default(),
        next_map: None,
        map_thumbnail: Default::default(),
        ip_port: IpPort::new(Ipv4Addr::new(1, 2, 3, 4), 421),
        country: Default::default(),
        ping: Default::default(),
        source_key: None,
        game_modes: vec![],
        provider: "".to_string(),
        vac_secured: false,
        has_rtd: false,
        has_no_respawn_time: false,
        has_all_talk: false,
        has_random_crits: false,
        need_password: false,
    };
    let rejected_server = Server {
        name: "test_reject".to_string(),
        max_players_count: 0,
        current_players_count: 0,
        map: Default::default(),
        next_map: None,
        map_thumbnail: Default::default(),
        ip_port: IpPort::new(Ipv4Addr::new(1, 2, 3, 4), 1234),
        country: Default::default(),
        ping: Default::default(),
        source_key: None,
        game_modes: vec![],
        provider: "".to_string(),
        vac_secured: false,
        has_rtd: false,
        has_no_respawn_time: false,
        has_all_talk: false,
        has_random_crits: false,
        need_password: false,
    };
    let mut blacklist = Blacklist::default();

    blacklist.push(BlacklistEntry::Text("reject".into()));

    assert_eq!(false, blacklist.accept(&rejected_server));
    assert_eq!(true, blacklist.accept(&accepted_server));
}

#[test]
fn test_entry_parse_text() {
    assert_eq!(BlacklistEntry::parse("hello"), BlacklistEntry::Text("hello".to_string()));
}

#[test]
fn test_entry_parse_ip() {
    assert_eq!(BlacklistEntry::parse("123.45.67.89"), BlacklistEntry::Ip(Ipv4Addr::new(123, 45, 67, 89)));
}

#[test]
fn test_entry_parse_ip_port() {
    assert_eq!(
        BlacklistEntry::parse("123.45.67.89:321"),
        BlacklistEntry::IpPort(IpPort::new(Ipv4Addr::new(123, 45, 67, 89), 321))
    );
}

#[test]
fn parse_keeps_an_address_whose_port_is_too_large() {
    assert_eq!(BlacklistEntry::parse("1.2.3.4:70000"), BlacklistEntry::Ip(Ipv4Addr::new(1, 2, 3, 4)));
}

#[test]
fn parse_ignores_what_follows_an_address() {
    assert_eq!(BlacklistEntry::parse("1.2.3.4abc"), BlacklistEntry::Ip(Ipv4Addr::new(1, 2, 3, 4)));
    assert_eq!(
        BlacklistEntry::parse("1.2.3.4:80 tail"),
        BlacklistEntry::IpPort(IpPort::new(Ipv4Addr::new(1, 2, 3, 4), 80))
    );
}

#[test]
fn parse_reads_an_octet_too_large_as_text() {
    assert_eq!(BlacklistEntry::parse("256.1.1.1"), BlacklistEntry::Text("256.1.1.1".to_string()));
    assert_eq!(BlacklistEntry::parse("1.2.3"), BlacklistEntry::Text("1.2.3".to_string()));
    assert_eq!(BlacklistEntry::parse(""), BlacklistEntry::Text("".to_string()));
}

#[test]
fn parse_accepts_leading_zeros() {
    assert_eq!(BlacklistEntry::parse("001.02.3.4"), BlacklistEntry::Ip(Ipv4Addr::new(1, 2, 3, 4)));
}

#[test]
fn written_entries_read_back() {
    let entries = vec![
        BlacklistEntry::Ip(Ipv4Addr::new(0, 255, 10, 7)),
        BlacklistEntry::IpPort(IpPort::new(Ipv4Addr::new(192, 168, 0, 1), 65535)),
        BlacklistEntry::IpPort(IpPort::new(Ipv4Addr::new(8, 8, 8, 8), 0)),
    ];
    for entry in entries {
        assert_eq!(BlacklistEntry::parse(&entry.to_string()), entry);
    }
    assert_eq!(BlacklistEntry::IpPort(IpPort::new(Ipv4Addr::new(1, 2, 3, 4), 5)).to_string(), "1.2.3.4:5");
}

#[test]
fn push_adds_an_entry_once() {
    let mut blacklist = Blacklist::new();

    blacklist.push(BlacklistEntry::parse("spam"));
    blacklist.push(BlacklistEntry::parse("1.2.3.4"));
    blacklist.push(BlacklistEntry::parse("spam"));

    assert_eq!(blacklist.iter().len(), 2);
    assert_eq!(blacklist.index_of(&BlacklistEntry::Text("spam".to_string())), Some(0));
    assert_eq!(blacklist.index_of(&BlacklistEntry::Ip(Ipv4Addr::new(1, 2, 3, 4))), Some(1));
    assert_eq!(blacklist.index_of(&BlacklistEntry::Text("other".to_string())), None);

    blacklist.remove(0);
    assert_eq!(blacklist.index_of(&BlacklistEntry::Ip(Ipv4Addr::new(1, 2, 3, 4))), Some(0));
    blacklist.clear();
    assert!(blacklist.is_empty());
}

#[test]
fn an_empty_text_entry_rejects_every_server() {
    let mut blacklist = Blacklist::new();
    let server = Server { name: "anything".to_string(), ..Default::default() };

    assert!(blacklist.accept(&server));
    blacklist.push(BlacklistEntry::Text("".to_string()));
    assert!(!blacklist.accept(&server));
}

#[test]
fn import_reads_each_line_that_is_not_blank() {
    let entries = import_entries("spam\r\n\n  \n1.2.3.4:27015\n10.0.0.1\r");

    assert_eq!(
        entries,
        vec![
            BlacklistEntry::Text("spam".to_string()),
            BlacklistEntry::IpPort(IpPort::new(Ipv4Addr::new(1, 2, 3, 4), 27015)),
            BlacklistEntry::Ip(Ipv4Addr::new(10, 0, 0, 1)),
        ]
    );
    assert_eq!(import_entries("last line\r"), vec![BlacklistEntry::Text("last line\r".to_string())]);
    assert_eq!(import_entries(""), vec![]);
    assert_eq!(import_entries("\n\n"), vec![]);
}
