pub mod ais;
pub mod app;
pub mod exec;
pub mod prompt;
pub mod text;
pub mod ui;
pub mod utils;
