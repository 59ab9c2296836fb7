//! Core of a personal activity log: users, salted password hashes,
//! distance entries weighted by activity kind, the highscore over them and
//! the upgrade of older snapshots to the current schema.

pub mod auth;
pub mod credentials;
pub mod db;
pub mod highscore;
pub mod laws;
pub mod migration;
pub mod models;
pub mod shared;
pub mod text;
