pub mod collector;
pub mod config;
pub mod dashboard;
pub mod models;
pub mod platform;
pub mod state;
pub mod system;
pub mod text;
