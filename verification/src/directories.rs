//! The files kept in the configuration directory.
use vstd::prelude::*;
use crate::application::paths::DirPath;
use crate::text::{push_str, string_from_chars};

verus! {

/// The application's name, which names its log file.
pub fn application_name() -> (s: &'static str)
    ensures
        s@ == "teamwork-launcher"@,
{
    "teamwork-launcher"
}

/// `teamwork-launcher.log` in the configuration directory.
pub fn get_log_output_file_path(configuration_directory: &DirPath) -> (p: DirPath)
    ensures
        p@ == configuration_directory@.push("teamwork-launcher"@ + ".log"@),
{
    let mut name: Vec<char> = Vec::new();
    push_str(&mut name, application_name());
    push_str(&mut name, ".log");
    assert(name@ =~= "teamwork-launcher"@ + ".log"@);
    let name = string_from_chars(&name);
    configuration_directory.join(name.as_str())
}

/// `user_settings.json` in the configuration directory.
pub fn get_settings_file_path(configuration_directory: &DirPath) -> (p: DirPath)
    ensures
        p@ == configuration_directory@.push("user_settings.json"@),
{
    configuration_directory.join("user_settings.json")
}

/// `providers.json` in the configuration directory.
pub fn get_providers_file_path(configuration_directory: &DirPath) -> (p: DirPath)
    ensures
        p@ == configuration_directory@.push("providers.json"@),
{
    configuration_directory.join("providers.json")
}

} // verus!
