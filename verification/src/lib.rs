pub mod commands;
pub mod config;
pub mod error;
pub mod group;
pub mod names;
pub mod nix;
pub mod order;
pub mod text;
pub mod utils;
