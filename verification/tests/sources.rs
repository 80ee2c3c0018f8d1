use teamwork_launcher::application::server::Server;
use teamwork_launcher::application::servers_source::SourceKey;
use teamwork_launcher::source_filter::SourceFilter;
use teamwork_launcher::sources::servers_sources::ServersSources;

fn offered(list: &[(&str, &str)]) -> Vec<(String, SourceKey)> {
    list.iter().map(|(name, key)| (name.to_string(), SourceKey::new(key))).collect()
}

fn server_from(key: Option<&str>) -> Server {
    Server { source_key: key.map(SourceKey::new), ..Default::default() }
}

#[test]
fn servers_sources_keep_only_the_sources_offered() {
    let mut sources = ServersSources::default();

    sources.set_available_sources(offered(&[("Skial", "skial"), ("Blackwonder", "bw")]));
    sources.check_source(&SourceKey::new("bw"), false);
    sources.set_available_sources(offered(&[("Blackwonder Gaming", "bw"), ("Uncletopia", "uncle")]));

    let listed: Vec<(String, String, bool)> =
        sources.sources().into_iter().map(|(name, key, used)| (name, key.as_str().to_string(), used)).collect();
    assert_eq!(
        listed,
        vec![("Blackwonder Gaming".to_string(), "bw".to_string(), false), ("Uncletopia".to_string(), "uncle".to_string(), true)]
    );
    let checked: Vec<String> = sources.checked_sources().into_iter().map(|k| k.as_str().to_string()).collect();
    assert_eq!(checked, vec!["uncle".to_string()]);
    assert!(sources.accept_server(&server_from(Some("uncle"))));
    assert!(!sources.accept_server(&server_from(Some("bw"))));
    assert!(!sources.accept_server(&server_from(Some("skial"))));
    assert!(!sources.accept_server(&server_from(None)));
}

#[test]
fn the_last_name_offered_for_a_key_wins() {
    let mut sources = ServersSources::new();

    sources.set_available_sources(offered(&[("Old", "k"), ("New", "k")]));

    assert_eq!(sources.sources().len(), 1);
    assert_eq!(sources.sources()[0].0, "New");
}

#[test]
fn source_filter_keeps_the_sources_not_offered() {
    let mut filter = SourceFilter::default();

    filter.set_available_sources(offered(&[("Skial", "skial")]));
    filter.check_source(&SourceKey::new("skial"), false);
    filter.set_available_sources(offered(&[("Other", "other")]));

    assert_eq!(filter.sources().len(), 2);
    assert!(!filter.accept_server(&server_from(Some("skial"))));
    assert!(filter.accept_server(&server_from(Some("other"))));
    filter.check_source(&SourceKey::new("unknown"), true);
    assert_eq!(filter.sources().len(), 2);
}
