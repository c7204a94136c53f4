//! Verified core of a self-hosted hosting control panel and its web server.
pub mod text;
pub mod totp;
pub mod error;
pub mod login_guard;
pub mod resp;
pub mod provision;
pub mod files;
pub mod cache;
pub mod session;
pub mod dns;
pub mod domains;
pub mod patterns;
pub mod webserver;
pub mod cron;
pub mod databases;
pub mod email;
pub mod ssh;
pub mod logs;
pub mod php;
pub mod redirects;
pub mod runtime;
pub mod sec;
pub mod ssl;
pub mod apps;
pub mod accounts;
pub mod backups;
pub mod stats;
pub mod packages;
pub mod deliverability;
pub mod delivery;
pub mod two_factor;
pub mod nginx;
pub mod config;
