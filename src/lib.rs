pub mod json;
pub mod text;
pub mod assoc;
pub mod channel;
pub mod runner;
pub mod step;
pub mod commands;
