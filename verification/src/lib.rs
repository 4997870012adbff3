//! Session bookkeeping, configuration and request routing for an on-demand
//! rotating HTTP proxy that sends traffic through Tor.

pub mod config;
pub mod kitty;
pub mod net;
pub mod table;
pub mod text;
