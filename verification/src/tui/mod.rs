pub mod app;
pub mod input;
pub mod tree;
pub mod map;
pub mod details;
