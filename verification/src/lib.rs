//! Command-line companion for Codeforces: the decisions and data handling
//! behind parsing contests, generating files from templates, testing and
//! submitting solutions.
pub mod text;
pub mod path;
pub mod cf;
pub mod languages;
pub mod config;
pub mod cli;
pub mod cmd;
pub mod testing;
pub mod client;
pub mod scrape;
pub mod files;
pub mod utils;
pub mod validate;
pub mod placeholders;
