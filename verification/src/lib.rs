//! SeedRelay: a local OpenAI-style realtime transcription bridge for Seed-ASR.
pub mod audio;
pub mod wire;
pub mod text;
pub mod protocol;
pub mod json;
pub mod url;
pub mod assets;
pub mod config;
pub mod models;
pub mod web;
pub mod encoding;
pub mod entropy;
pub mod realtime;
pub mod response;
pub mod server;
pub mod credentials;
pub mod client;
pub mod env_file;
pub mod cli;
