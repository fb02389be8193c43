//! Core of a terminal credential manager: an encrypted vault of secret
//! records with CRUD and fuzzy search, the session state machine that a
//! keyboard drives over it, and the text content of its screens. Every
//! function here carries a verified contract; the terminal itself, and the
//! encrypted file store, live outside and are reached through the trusted
//! declarations in `store`, `fuzzy`, `secret`, `strutil` and `events`.

pub mod error;
pub mod strutil;
pub mod generator;
pub mod secret;
pub mod vault_data;
pub mod codec;
pub mod store;
pub mod fuzzy;
pub mod manager;
pub mod app;
pub mod events;
pub mod render;
