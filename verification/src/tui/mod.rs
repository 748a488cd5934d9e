pub mod app;
pub mod errors;
pub mod handlers;
pub mod keys;
pub mod state;
pub mod utils;
pub mod view;
