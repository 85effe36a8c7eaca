//! Data model: backups and their locations, the application configuration,
//! and the folder listings shown when choosing a server location.

pub mod app;
pub mod app_config;
pub mod backup;
pub mod folder;
pub mod storage;
