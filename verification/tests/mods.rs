use teamwork_launcher::application::bookmarks::Bookmarks;
use teamwork_launcher::application::filter::filter_servers::Filter;
use teamwork_launcher::application::message::{AddViewMessage, ListViewMessage, ModsMessage};
use teamwork_launcher::application::mods::{Install, ModName, PackageEntry, Registry, Source};
use teamwork_launcher::application::mods_management::ModsCommand;
use teamwork_launcher::application::paths::DirPath;
use teamwork_launcher::application::screens::{AddModView, Screens};
use teamwork_launcher::application::teamwork_launcher::TeamworkLauncher;
use teamwork_launcher::application::thumbnail::ThumbnailCache;
use teamwork_launcher::application::user_settings::UserSettings;

fn launcher() -> TeamworkLauncher {
    let mut settings = UserSettings::new("/usr/bin/steam");
    settings.set_teamwork_api_key("key".to_string());
    TeamworkLauncher::new(
        settings,
        None,
        Filter::default(),
        Vec::new(),
        Bookmarks::new(),
        ThumbnailCache::new(DirPath::new(vec!["cache".to_string()])),
        false,
    )
}

fn path(parts: &[&str]) -> DirPath {
    DirPath::new(parts.iter().map(|p| p.to_string()).collect())
}

fn mods_directory() -> Option<DirPath> {
    Some(path(&["games", "tf", "custom"]))
}

fn form(launcher: &TeamworkLauncher) -> &AddModView {
    match launcher.views.current() {
        Some(Screens::AddMod(form)) => form,
        _ => panic!("the form that adds mods is not shown"),
    }
}

fn installed(launcher: &TeamworkLauncher, name: &str) -> Option<Vec<String>> {
    match &launcher.mods_registry.get(&ModName::new(name)).expect("a known mod").install {
        Install::Installed { package, .. } => Some(package.path.components().clone()),
        Install::NotInstalled => None,
    }
}

#[test]
fn registry_add_replaces_and_remove_gives_back() {
    let mut registry = Registry::new();
    registry.add(ModName::new("hud"), Source::DownloadUrl("https://a.example/hud.zip".to_string()));
    registry.add(ModName::new("crosshair"), Source::Unknown);
    assert_eq!(registry.len(), 2);
    assert_eq!(registry.info_at(0).name.as_str(), "crosshair");
    assert_eq!(registry.info_at(1).name.as_str(), "hud");

    registry.add(ModName::new("hud"), Source::Unknown);
    assert_eq!(registry.len(), 2);
    assert!(matches!(registry.get(&ModName::new("hud")).unwrap().source, Source::Unknown));

    let removed = registry.remove(&ModName::new("hud")).expect("hud was known");
    assert_eq!(removed.name.as_str(), "hud");
    assert!(registry.get(&ModName::new("hud")).is_none());
    assert!(registry.remove(&ModName::new("hud")).is_none());
    assert_eq!(registry.len(), 1);
}

#[test]
fn the_form_checks_the_download_url() {
    let mut launcher = launcher();
    let command = launcher.process_mods_message(ModsMessage::AddView(AddViewMessage::Show), mods_directory());
    assert!(matches!(command, ModsCommand::FocusDownloadUrl));
    assert!(!form(&launcher).is_form_valid);

    launcher.process_mods_message(
        ModsMessage::AddView(AddViewMessage::DownloadUrlChanged("not a url".to_string())),
        mods_directory(),
    );
    assert!(!form(&launcher).is_form_valid);
    assert_eq!(form(&launcher).error.as_deref(), Some("Invalid URL: relative URL without a base"));

    launcher.process_mods_message(
        ModsMessage::AddView(AddViewMessage::DownloadUrlChanged("https://mods.example/hud.zip".to_string())),
        mods_directory(),
    );
    assert!(form(&launcher).is_form_valid);
    assert_eq!(form(&launcher).download_url, "https://mods.example/hud.zip");

    launcher.process_mods_message(
        ModsMessage::AddView(AddViewMessage::DownloadUrlChanged(String::new())),
        mods_directory(),
    );
    assert!(!form(&launcher).is_form_valid);
    assert!(form(&launcher).error.is_none());
}

#[test]
fn scanned_mods_are_added_and_the_form_closes() {
    let mut launcher = launcher();
    launcher.process_mods_message(ModsMessage::AddView(AddViewMessage::Show), mods_directory());
    let source = Source::DownloadUrl("https://mods.example/pack.zip".to_string());
    let command = launcher.process_mods_message(
        ModsMessage::AddView(AddViewMessage::ScanPackageToAdd(source.clone())),
        mods_directory(),
    );
    assert!(matches!(command, ModsCommand::ScanPackage(Source::DownloadUrl(ref url)) if url == "https://mods.example/pack.zip"));
    assert!(form(&launcher).scanning);

    launcher.process_mods_message(
        ModsMessage::AddMods(source, vec![ModName::new("hud"), ModName::new("sounds")]),
        mods_directory(),
    );
    assert!(matches!(launcher.views.current(), Some(Screens::Main)));
    assert_eq!(launcher.mods_registry.len(), 2);
    assert_eq!(installed(&launcher, "hud"), None);
}

#[test]
fn a_scan_error_is_shown_in_the_form() {
    let mut launcher = launcher();
    launcher.process_mods_message(ModsMessage::AddView(AddViewMessage::Show), mods_directory());
    launcher.is_loading_mods = true;
    launcher.process_mods_message(ModsMessage::error("Failed to scan package", "not found"), mods_directory());
    assert_eq!(form(&launcher).error.as_deref(), Some("not found"));
    assert!(!form(&launcher).scanning);
    assert!(!launcher.is_loading_mods);
}

#[test]
fn install_then_uninstall() {
    let mut launcher = launcher();
    launcher.mods_registry.add(ModName::new("hud"), Source::DownloadUrl("https://mods.example/hud.zip".to_string()));

    let command = launcher.process_mods_message(ModsMessage::Install(ModName::new("hud")), mods_directory());
    match command {
        ModsCommand::Install { source: Source::DownloadUrl(url), name, mods_directory } => {
            assert_eq!(url, "https://mods.example/hud.zip");
            assert_eq!(name.as_str(), "hud");
            assert_eq!(mods_directory.components(), &vec!["games".to_string(), "tf".to_string(), "custom".to_string()]);
        },
        other => panic!("unexpected command {:?}", other),
    }
    assert!(launcher.is_loading_mods);

    let package = PackageEntry { name: ModName::new("hud"), path: path(&["games", "tf", "custom", "hud"]) };
    launcher.process_mods_message(
        ModsMessage::InstallationFinished(ModName::new("hud"), Install::installed_now(package)),
        mods_directory(),
    );
    assert!(!launcher.is_loading_mods);
    assert_eq!(installed(&launcher, "hud"), Some(vec!["games".to_string(), "tf".to_string(), "custom".to_string(), "hud".to_string()]));

    let command = launcher.process_mods_message(ModsMessage::Uninstall(ModName::new("hud")), mods_directory());
    match command {
        ModsCommand::Uninstall { name, package_path, .. } => {
            assert_eq!(name.as_str(), "hud");
            assert_eq!(package_path.components().len(), 4);
        },
        other => panic!("unexpected command {:?}", other),
    }
    launcher.process_mods_message(ModsMessage::UninstallationFinished(ModName::new("hud")), mods_directory());
    assert_eq!(installed(&launcher, "hud"), None);
}

#[test]
fn nothing_is_installed_without_the_game() {
    let mut launcher = launcher();
    launcher.mods_registry.add(ModName::new("hud"), Source::Unknown);
    let command = launcher.process_mods_message(ModsMessage::Install(ModName::new("hud")), None);
    assert!(matches!(command, ModsCommand::Nothing));
    assert!(!launcher.is_loading_mods);
}

#[test]
fn found_packages_are_recorded() {
    let mut launcher = launcher();
    launcher.mods_registry.add(ModName::new("hud"), Source::Unknown);
    launcher.process_mods_message(
        ModsMessage::FoundInstalledMods(vec![
            PackageEntry { name: ModName::new("hud"), path: path(&["custom", "hud"]) },
            PackageEntry { name: ModName::new("skybox"), path: path(&["custom", "skybox"]) },
        ]),
        mods_directory(),
    );
    // A known mod that was not installed stays so; an unknown one is added as installed.
    assert_eq!(installed(&launcher, "hud"), None);
    assert_eq!(installed(&launcher, "skybox"), Some(vec!["custom".to_string(), "skybox".to_string()]));
    assert!(matches!(launcher.mods_registry.get(&ModName::new("skybox")).unwrap().source, Source::Unknown));
}

#[test]
fn removing_the_selected_mod_unselects_it() {
    let mut launcher = launcher();
    launcher.mods_registry.add(ModName::new("hud"), Source::Unknown);
    launcher.process_mods_message(ModsMessage::ListView(ListViewMessage::ModClicked(ModName::new("hud"))), mods_directory());
    assert_eq!(launcher.selected_mod.as_ref().map(|n| n.as_str().to_string()), Some("hud".to_string()));
    let command = launcher.process_mods_message(
        ModsMessage::ListView(ListViewMessage::RemoveMod(ModName::new("hud"))),
        mods_directory(),
    );
    assert!(matches!(command, ModsCommand::Nothing));
    assert!(launcher.selected_mod.is_none());
    assert_eq!(launcher.mods_registry.len(), 0);
}
