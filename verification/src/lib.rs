pub mod config;
pub mod connection;
pub mod launch;
pub mod rdp_parser;
pub mod sia;
pub mod text;
pub mod ui;
pub mod window;
