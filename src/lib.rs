//! Compiles declarative window rules into a compositor's rule language, and
//! decides which commands to re-issue when a followed window gains focus.
pub mod config;
pub mod events;
pub mod rules;
pub mod send;
pub mod text;
pub mod value;
pub mod window;
pub mod yaml;
