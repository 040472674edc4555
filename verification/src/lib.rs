pub mod cli;
pub mod clip;
pub mod commands;
pub mod model;
pub mod parser;
pub mod text;
pub mod text_map;
pub mod tiles;
pub mod tui;
