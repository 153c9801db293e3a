pub mod agg;
pub mod auth;
pub mod broadcast;
pub mod config;
pub mod disk;
pub mod host;
pub mod network;
pub mod ping;
pub mod rate;
pub mod registry;
pub mod store;
pub mod text;
