//! The user's settings.
use vstd::prelude::*;
use crate::text::{copy_text, is_blank, push_str, string_from_chars, text_is_blank};

verus! {

#[derive(Clone, Copy, Debug, PartialEq, Eq, Structural)]
pub struct WindowSettings {
    pub window_x: i32,
    pub window_y: i32,
    pub window_width: u32,
    pub window_height: u32,
}

impl Default for WindowSettings {
    fn default() -> (w: WindowSettings)
        ensures
            w.window_x == 0,
            w.window_y == 0,
            w.window_width == 0,
            w.window_height == 0,
    {
        WindowSettings { window_x: 0, window_y: 0, window_width: 0, window_height: 0 }
    }
}

#[derive(Debug, Clone, Copy, Eq, PartialEq, Structural)]
pub enum LauncherTheme {
    Red,
    Blue,
}

impl LauncherTheme {
    /// The theme's name, as `Display` writes it.
    pub fn to_string(&self) -> (s: String)
        ensures
            s@ == match *self {
                LauncherTheme::Red => "Red"@,
                LauncherTheme::Blue => "Blue"@,
            },
    {
        let mut out: Vec<char> = Vec::new();
        match self {
            LauncherTheme::Red => push_str(&mut out, "Red"),
            LauncherTheme::Blue => push_str(&mut out, "Blue"),
        }
        assert(out@ =~= Seq::<char>::empty() + out@);
        string_from_chars(&out)
    }
}

/// The thumbnails cache holds at most this many megabytes by default.
pub fn default_max_thumbnails_cache_size() -> (n: u64)
    ensures
        n == 20,
{
    20
}

/// The settings, but the ratio between the servers list and the filters pane,
/// which is a floating-point number and lives with the window.
pub struct UserSettings {
    pub steam_executable_path: String,
    pub quit_on_launch: bool,
    pub quit_on_copy: bool,
    pub theme: LauncherTheme,
    pub max_thumbnails_cache_size_mb: u64,
    pub window: Option<WindowSettings>,
    pub teamwork_api_key: String,
}

/// The API key in use: the one from the environment when it is set, else the
/// one stored in the settings.
pub open spec fn effective_api_key(stored: Seq<char>, from_env: Option<String>) -> Seq<char> {
    match from_env {
        Some(k) => k@,
        None => stored,
    }
}

impl UserSettings {
    pub open spec fn stored_api_key(&self) -> Seq<char> {
        self.teamwork_api_key@
    }

    /// Settings with the given Steam executable and everything else at its default:
    /// no API key, red theme, no quitting, a cache of 20 MB, no window yet.
    pub fn new(steam_executable_path: &str) -> (s: UserSettings)
        ensures
            s.steam_executable_path@ == steam_executable_path@,
            s.stored_api_key() == Seq::<char>::empty(),
            !s.quit_on_launch,
            !s.quit_on_copy,
            s.window is None,
            s.theme == LauncherTheme::Red,
            s.max_thumbnails_cache_size_mb == 20,
    {
        UserSettings {
            teamwork_api_key: String::new(),
            steam_executable_path: copy_text(steam_executable_path),
            quit_on_launch: false,
            quit_on_copy: false,
            window: None,
            theme: LauncherTheme::Red,
            max_thumbnails_cache_size_mb: default_max_thumbnails_cache_size(),
        }
    }

    /// Whether a non-blank key is in use; `key_from_env` is the value of the
    /// `TEAMWORK_API_KEY` environment variable, if set.
    pub fn has_teamwork_api_key(&self, key_from_env: &Option<String>) -> (r: bool)
        ensures
            r == !is_blank(effective_api_key(self.stored_api_key(), *key_from_env)),
    {
        let key = self.teamwork_api_key(key_from_env);
        !text_is_blank(key.as_str())
    }

    /// Whether the key in use comes from the environment.
    pub fn is_teamwork_api_key_from_env(&self, key_from_env: &Option<String>) -> (r: bool)
        ensures
            r == key_from_env.is_some(),
    {
        key_from_env.is_some()
    }

    /// The key in use.
    pub fn teamwork_api_key(&self, key_from_env: &Option<String>) -> (key: String)
        ensures
            key@ == effective_api_key(self.stored_api_key(), *key_from_env),
    {
        match key_from_env {
            Some(api_key) => api_key.clone(),
            None => self.teamwork_api_key.clone(),
        }
    }

    pub fn set_teamwork_api_key(&mut self, key: String)
        ensures
            *final(self) == (UserSettings { teamwork_api_key: key, ..*old(self) }),
    {
        self.teamwork_api_key = key;
    }
}

} // verus!
