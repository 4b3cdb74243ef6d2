//! A verified core for a LoRaWAN frame store: configuration, message
//! ingestion, the log-structured frame store and its query pipeline.

pub mod text;
pub mod address;
pub mod config;
pub mod error;
pub mod lorawan;
pub mod decoded;
pub mod frames;
pub mod chirpstack;
pub mod registry;
pub mod storage;
pub mod executor;
pub mod handlers;
pub mod middleware;
pub mod http;
