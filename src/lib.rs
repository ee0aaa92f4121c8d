//! A self-hosted mirror for an extension marketplace and release service:
//! the catalog model, the acquisition decisions and the cache resolution rules.

pub mod text;
pub mod version;
pub mod extension;
pub mod extensions_utils;
pub mod catalog;
pub mod cache;
pub mod releases;
pub mod server;
pub mod downloader;
pub mod cli;
pub mod health;
pub mod proxy;
