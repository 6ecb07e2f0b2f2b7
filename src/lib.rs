pub mod cache;
pub mod checks;
pub mod commands;
pub mod flow;
pub mod guard;
pub mod project;
pub mod render;
pub mod text;
