//! Dynamic-DNS reconciliation: detect a change of the host's public address
//! and bring the tracked DNS records into agreement with it.

pub mod check_cycle;
pub mod cli_program;
pub mod cloudflare_provider;
pub mod config;
pub mod discord_webhook;
pub mod dns_provider;
pub mod error;
pub mod godaddy_api;
pub mod ip_handler;
pub mod ip_laws;
pub mod paths;
pub mod seq_util;
pub mod text;
pub mod webhook_notifier;
