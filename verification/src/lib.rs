pub mod cli;
pub mod config;
pub mod hid;
pub mod models;
pub mod numeric;
pub mod services;
pub mod text;
pub mod tray;
