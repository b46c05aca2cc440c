pub mod primitives;

pub use primitives::{ExecResult, ToolSet};
