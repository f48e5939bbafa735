//! Split-tunnel routing support for Russian IPv4 networks.

pub mod aggregate;
pub mod commands;
pub mod config;
pub mod gateway;
pub mod helper;
pub mod net;
pub mod network_watch;
pub mod pac;
pub mod routing;
pub mod scheduler;
pub mod status;
pub mod text;
pub mod updater;
