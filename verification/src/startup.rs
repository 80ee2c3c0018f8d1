//! What the launcher decides when it starts, from the settings it read.
use vstd::prelude::*;
use crate::application::servers_source::ServersSource;
use crate::application::user_settings::{UserSettings, WindowSettings};

verus! {

/// The sources used when none were saved: each of the Teamwork.tf quick play
/// lists, by name and URL.
pub open spec fn default_source_list() -> Seq<(Seq<char>, Seq<char>)> {
    seq![
        ("Payload"@, "https://teamwork.tf/api/v1/quickplay/payload/servers"@),
        ("Payload Race"@, "https://teamwork.tf/api/v1/quickplay/payload-race/servers"@),
        ("King Of The Hill"@, "https://teamwork.tf/api/v1/quickplay/koth/servers"@),
        ("Capture The Flag"@, "https://teamwork.tf/api/v1/quickplay/ctf/servers"@),
        ("Attack/Defend"@, "https://teamwork.tf/api/v1/quickplay/attack-defend/servers"@),
        ("Control Point"@, "https://teamwork.tf/api/v1/quickplay/control-point/servers"@),
        ("Medieval Mode"@, "https://teamwork.tf/api/v1/quickplay/medieval-mode/servers"@),
    ]
}

/// The sources used when none were saved, all enabled.
pub fn default_servers_sources() -> (sources: Vec<ServersSource>)
    ensures
        sources@.len() == default_source_list().len(),
        forall|i: int|
            0 <= i < sources@.len() ==> (#[trigger] sources@[i]).spec_display_name() == default_source_list()[i].0
                && sources@[i].spec_url() == default_source_list()[i].1 && sources@[i].spec_key()@
                == default_source_list()[i].1 && sources@[i].spec_enabled(),
{
    let mut sources: Vec<ServersSource> = Vec::new();
    sources.push(ServersSource::new("Payload", "https://teamwork.tf/api/v1/quickplay/payload/servers"));
    sources.push(
        ServersSource::new("Payload Race", "https://teamwork.tf/api/v1/quickplay/payload-race/servers"),
    );
    sources.push(ServersSource::new("King Of The Hill", "https://teamwork.tf/api/v1/quickplay/koth/servers"));
    sources.push(ServersSource::new("Capture The Flag", "https://teamwork.tf/api/v1/quickplay/ctf/servers"));
    sources.push(
        ServersSource::new("Attack/Defend", "https://teamwork.tf/api/v1/quickplay/attack-defend/servers"),
    );
    sources.push(
        ServersSource::new("Control Point", "https://teamwork.tf/api/v1/quickplay/control-point/servers"),
    );
    sources.push(
        ServersSource::new("Medieval Mode", "https://teamwork.tf/api/v1/quickplay/medieval-mode/servers"),
    );
    sources
}

/// Where and how large the window opens: as saved, when it was; else the
/// settings get a window at its defaults and the window opens as the system
/// places it.
pub fn window_to_open(user_settings: &mut UserSettings) -> (r: Option<WindowSettings>)
    ensures
        r == old(user_settings).window,
        *final(user_settings) == (UserSettings {
            window: match old(user_settings).window {
                Some(w) => Some(w),
                None => Some(WindowSettings { window_x: 0, window_y: 0, window_width: 0, window_height: 0 }),
            },
            ..*old(user_settings)
        }),
{
    match user_settings.window {
        Some(window) => Some(window),
        None => {
            user_settings.window = Some(WindowSettings::default());
            None
        },
    }
}

/// The size limit of the thumbnails cache in bytes, from its size in megabytes.
pub fn cache_size_bytes(max_thumbnails_cache_size_mb: u64) -> (bytes: u64)
    requires
        max_thumbnails_cache_size_mb * 1024 * 1024 <= u64::MAX,
    ensures
        bytes == max_thumbnails_cache_size_mb * 1024 * 1024,
{
    max_thumbnails_cache_size_mb * 1024 * 1024
}

} // verus!
