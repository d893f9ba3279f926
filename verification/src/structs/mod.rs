pub mod config;
pub mod quasar;
pub mod window;
pub mod workspace;
