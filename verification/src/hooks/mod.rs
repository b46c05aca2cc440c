pub mod clean_state;
pub mod context;
pub mod traits;

pub use clean_state::CleanStateHook;
pub use context::{SessionEndContext, SessionStartContext, ToolPostContext, ToolPreContext};
pub use traits::{Context, HookAction, HookChain, HookResult, HookStep, Next};
