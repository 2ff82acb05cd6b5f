//! Finds where a movie or an episode can be streamed, and serves it.

pub mod args;
pub mod buffers;
pub mod contracts;
pub mod custom_extractor;
pub mod error;
pub mod fsonline;
pub mod imdb_service;
pub mod player;
pub mod playlist;
pub mod routes;
pub mod scrappers;
pub mod small_cache;
pub mod text;
pub mod ts_parser;
