//! A small package manager for Arch Linux package databases: the parsing,
//! path layout and decision logic of its operations.

pub mod api;
pub mod config;
pub mod database;
pub mod install;
pub mod package_files;
pub mod operations;
pub mod text;
pub mod upgrade;
