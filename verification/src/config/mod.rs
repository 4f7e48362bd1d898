pub mod shell;
pub mod wrapper;
pub mod prompt;
