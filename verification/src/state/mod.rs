pub mod engine;
pub mod handoff;

pub use engine::StateEngine;
pub use handoff::HandoffManager;

