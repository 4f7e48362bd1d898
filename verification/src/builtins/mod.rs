pub mod ls;
pub mod jobs;
pub mod help;
