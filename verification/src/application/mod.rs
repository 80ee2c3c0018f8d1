//! The launcher's model: servers, their filters, and the state that reacts to events.
pub mod country;
pub mod ip_port;
pub mod map;
pub mod promised_value;
pub mod game_mode;
pub mod servers_source;
pub mod server;
pub mod filter_dictionary;
pub mod bookmarks;
pub mod filter;
pub mod progress;
pub mod screens;
pub mod screenshots;
pub mod views;
pub mod notifications;
pub mod servers_counts;
pub mod user_settings;
pub mod paths;
pub mod country_filter;
pub mod filter_servers;
pub mod game_mode_filter;
pub mod blacklist;
pub mod thumbnail;
pub mod message;
pub mod servers_summary;
pub mod mods;
pub mod teamwork_launcher;
pub mod mods_management;
pub mod source_order;
pub mod fetch_servers;
