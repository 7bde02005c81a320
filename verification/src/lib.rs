pub mod text;
pub mod settings;
pub mod theme;
pub mod cache;
pub mod encoding;
pub mod scrobbler;
pub mod library;
pub mod lastfm;
pub mod matcher;
pub mod recommender;
pub mod app;
pub mod discord;
pub mod num;
