//! Decisions behind a cleaner for the data that ZCode keeps under `~/.zcode`.
pub mod caches;
pub mod clean;
pub mod cli;
pub mod clock;
pub mod db;
pub mod delete;
pub mod model;
pub mod order;
pub mod paths;
pub mod place;
pub mod progress;
pub mod rows;
pub mod scan;
pub mod sessions;
pub mod text;
pub mod total;
pub mod tree;
pub mod views;
