//! The events the launcher reacts to.
use vstd::prelude::*;
use crate::application::blacklist::ImportBlacklistError;
use crate::application::country::Country;
use crate::application::filter::properties_filter::PropertyFilterSwitch;
use crate::application::filter::sort_servers::{SortCriterion, SortDirection};
use crate::application::game_mode::{GameModeId, GameModeRecord};
use crate::application::map::MapName;
use crate::application::mods::{Install, ModName, PackageEntry, Source};
use crate::application::paths::DirPath;
use crate::application::server::Server;
use crate::application::servers_source::SourceKey;
use crate::application::user_settings::LauncherTheme;
use crate::text::copy_text;

verus! {

/// A change the user made to the filter.
#[derive(Debug)]
pub enum FilterMessage {
    CountryChecked(Country, bool),
    NoCountryChecked(bool),
    TextChanged(String),
    BookmarkedOnlyChecked(bool),
    IgnoreCaseChanged(bool),
    IgnoreAccentChanged(bool),
    MaxPingChanged(u32),
    AcceptPingTimeoutChanged(bool),
    PingFilterEnabled(bool),
    GameModeChecked(GameModeId, bool),
    CountryFilterEnabled(bool),
    GameModeFilterEnabled(bool),
    VacSecuredChanged(PropertyFilterSwitch),
    RtdChanged(PropertyFilterSwitch),
    AllTalkChanged(PropertyFilterSwitch),
    NoRespawnTimeChanged(PropertyFilterSwitch),
    PasswordChanged(PropertyFilterSwitch),
    RandomCritsChanged(PropertyFilterSwitch),
    SortCriterionChanged(SortCriterion),
    SortDirectionChanged(SortDirection),
    MinimumPlayersChanged(u8),
    MinimumFreeSlotsChanged(u8),
    PlayerFilterEnabled(bool),
    MapChecked(MapName, bool),
    MapFilterEnabled(bool),
    ProviderChecked(String, bool),
    ProviderFilterEnabled(bool),
    MapNameFilterChanged(String),
}

/// A change the user made to the settings, or to the window.
#[derive(Debug)]
pub enum SettingsMessage {
    TeamworkApiKeyChanged(String),
    SteamExecutableChanged(String),
    SourceEnabled(SourceKey, bool),
    QuitWhenLaunchChecked(bool),
    QuitWhenCopyChecked(bool),
    WindowMoved { x: i32, y: i32 },
    WindowResized { width: u32, height: u32 },
    ThemeChanged(LauncherTheme),
    OpenDirectory(DirPath),
    MaxCacheSizeChanged(u64),
}

#[derive(Debug, Clone, Copy, PartialEq, Eq, Structural)]
pub enum KeyboardMessage {
    ShiftPressed,
    ShiftReleased,
}

#[derive(Debug, Clone, Copy, PartialEq, Eq, Structural)]
pub enum NotificationMessage {
    Update,
    Clear,
}

/// News of the screenshots of a map: the images' bytes, a move, or the error
/// that stopped their download.
#[derive(Debug)]
pub enum ScreenshotsMessage {
    Screenshots(Vec<Vec<u8>>),
    Next,
    Previous,
    Error(String),
}

/// The game modes fetched, or the error that stopped their download.
#[derive(Debug)]
pub enum GameModesMessage {
    GameModes(Vec<GameModeRecord>),
    Error(String),
}

/// News of a refresh of the servers list.
#[derive(Debug)]
pub enum FetchServersMessage {
    FetchServersStart,
    FetchServersFinish,
    FetchServersError(String),
    NewServers(Vec<Server>),
}

/// A change to the blacklist.
#[derive(Debug)]
pub enum BlacklistMessage {
    Add(String),
    Extend(Vec<String>),
    Remove(usize),
    RemoveAll,
    Import,
    ImportFailed(ImportBlacklistError),
}

/// An action in the form that adds mods.
#[derive(Debug)]
pub enum AddViewMessage {
    Show,
    DownloadUrlChanged(String),
    ScanPackageToAdd(Source),
}

/// An action in the list of mods.
#[derive(Debug)]
pub enum ListViewMessage {
    ModClicked(ModName),
    RemoveMod(ModName),
}

/// What happens to the mods: the user's actions and the results of the work
/// done on the disk.
#[derive(Debug)]
pub enum ModsMessage {
    AddView(AddViewMessage),
    ListView(ListViewMessage),
    AddMods(Source, Vec<ModName>),
    Install(ModName),
    Uninstall(ModName),
    OpenInstallDirectory(ModName),
    InstallationFinished(ModName, Install),
    UninstallationFinished(ModName),
    FoundInstalledMods(Vec<PackageEntry>),
    Error(String, String),
}

impl ModsMessage {
    /// A failure, with a title and the message that explains it.
    pub fn error(title: &str, message: &str) -> (r: ModsMessage)
        ensures
            r matches ModsMessage::Error(t, m) && t@ == title@ && m@ == message@,
    {
        ModsMessage::Error(copy_text(title), copy_text(message))
    }
}

} // verus!
