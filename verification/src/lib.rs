pub mod text;
pub mod vars;
pub mod executor;
pub mod config;
pub mod ui;
pub mod builtins;
pub mod bindings;
pub mod state;
pub mod shell;
