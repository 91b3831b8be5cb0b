//! A verified core for the CineVault HTTP gateway: provider selection,
//! stream tickets, proxy planning, DASH manifest rewriting and subtitle
//! conversion.

pub mod text;
pub mod manifest;
pub mod ticket_id;
pub mod tickets;
pub mod providers;
pub mod streams;
pub mod proxy;
pub mod subtitles;
pub mod server;
pub mod requests;
pub mod config;
