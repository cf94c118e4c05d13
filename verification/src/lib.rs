//! File synchronization between one folder and a personal server.
pub mod access;
pub mod admission;
pub mod auth_protocol;
pub mod catalog;
pub mod certified;
pub mod client;
pub mod console;
pub mod device_auth;
pub mod digest;
pub mod endorsement;
pub mod journal;
pub mod keyed;
pub mod keys;
pub mod local_fs;
pub mod model;
pub mod order;
pub mod origin_auth;
pub mod pairing;
pub mod reconcile;
pub mod registry;
pub mod release;
pub mod replace;
pub mod server;
pub mod setup;
pub mod text;
pub mod tpm;
pub mod transfer;
pub mod update;
pub mod uploads;
pub mod url;
