//! Decision logic of a Julia worker daemon.

pub mod args;
pub mod assignment;
pub mod client_env;
pub mod client_run;
pub mod clients;
pub mod conductor;
pub mod config;
pub mod cooked;
pub mod dial;
pub mod env_cache;
pub mod handshake;
pub mod handover;
pub mod health;
pub mod help;
pub mod laws;
pub mod lifecycle;
pub mod messages;
pub mod numeric;
pub mod pools;
pub mod pressure;
pub mod project;
pub mod protocol;
pub mod render;
pub mod report;
pub mod request;
pub mod rounds;
pub mod sandbox;
pub mod sandbox_fs;
pub mod selection;
pub mod server;
pub mod session;
pub mod signal_parser;
pub mod spawn;
pub mod status;
pub mod streams;
pub mod text;
pub mod upkeep;
pub mod wire;
pub mod worker;
