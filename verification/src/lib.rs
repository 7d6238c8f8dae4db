//! Verified core of the YTune desktop client.
pub mod text;
pub mod decimal;
pub mod prefs;
pub mod discord;
pub mod scripts;
pub mod auth;
pub mod monitor;
pub mod window;
pub mod payload;
pub mod deep_link;
