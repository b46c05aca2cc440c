pub mod commands;

pub use commands::{Commands, DevPlan, SessionNote};
