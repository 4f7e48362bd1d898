pub mod prompt;
pub mod completion;
