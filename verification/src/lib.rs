//! Verified core of a Maven repository tool.
pub mod cleanup;
pub mod config;
pub mod downloader;
pub mod http;
pub mod metadata;
pub mod order;
pub mod paths;
pub mod platform;
pub mod repository;
pub mod server;
pub mod sha1;
pub mod text;
pub mod upload;
pub mod url;
pub mod xml;
