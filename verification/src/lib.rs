pub mod text;
pub mod sort;
pub mod srt;
pub mod error;
pub mod shift;
pub mod ass;
pub mod config;
pub mod cli_config;
pub mod config_cmd;
pub mod export_rows;
pub mod download;
pub mod library_model;
pub mod native;
pub mod subtitle_search;
pub mod opensubtitles_xmlrpc;
pub mod s3;
pub mod overlay_cache;
pub mod search;
pub mod tmdb;
pub mod library_index;
pub mod tracker;
pub mod graph;
pub mod genres;
pub mod subtitle_sources;
pub mod subtitle_streams;
pub mod credits;
pub mod tmdb_search;
pub mod media;
pub mod film_query;
pub mod omdb;
