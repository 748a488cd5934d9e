pub mod commands;

pub use commands::{Cli, Commands};
