pub mod config;
pub mod driver;
pub mod error;
pub mod geocode;
pub mod text;
