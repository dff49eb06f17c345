//! Synchronising Windows Bluetooth pairing data into BlueZ storage.
pub mod address;
pub mod bonds;
pub mod config;
pub mod ini;
pub mod laws;
pub mod metadata;
pub mod mount;
pub mod options;
pub mod plan;
pub mod order;
pub mod registry;
pub mod report;
pub mod strmap;
pub mod text;
