//! Deskemy core: the verified logic of an offline course-video library.

pub mod text;
pub mod structure;
pub mod scanner;
pub mod subtitles;
pub mod ordering;
pub mod importer;
pub mod domain;
pub mod hashing;
pub mod error;
pub mod thumbnails;
pub mod db;
pub mod media;
pub mod stats;
pub mod player;
pub mod watcher;
pub mod search;
pub mod backup;
pub mod commands;
