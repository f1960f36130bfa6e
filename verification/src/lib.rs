//! TunnelDesk's verified core: capture of proxied HTTP and WebSocket
//! traffic, the bounded stores that keep it, the configuration model, the
//! decisions of tunnel management and Cloudflare synchronisation, and the
//! payloads of the web UI.

pub mod text;
pub mod storage;
pub mod capture;
pub mod proxy;
pub mod config;
pub mod cloudflare;
pub mod sync;
pub mod cloudflared;
pub mod web_server;
pub mod gui;
pub mod args;
pub mod setup;
pub mod traffic_log;
pub mod sync_steps;
