pub mod appicon;
pub mod commands;
pub mod context;
pub mod decks;
pub mod edits;
pub mod endpoints;
pub mod http;
pub mod json;
pub mod local;
pub mod metadata;
pub mod models;
pub mod player;
pub mod shelf;
pub mod stream_proxy;
pub mod text;
pub mod tray;
