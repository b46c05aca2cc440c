//! A harness for long-running coding agents: progress events, the session
//! turn budget, lifecycle hooks, the handoff document and the four tool
//! primitives, with their decision logic verified.

pub mod agents;
pub mod cli;
pub mod error;
pub mod git;
pub mod hooks;
pub mod state;
pub mod text;
pub mod tools;
pub mod types;

pub use agents::{CoderAgent, InitializerAgent};
pub use error::{Error, Result};
pub use git::GitBridge;
pub use hooks::{
    CleanStateHook, Context, HookChain, HookResult, HookStep, Next, SessionEndContext,
    SessionStartContext, ToolPostContext, ToolPreContext,
};
pub use state::{HandoffManager, StateEngine};
pub use tools::{ExecResult, ToolSet};
pub use types::{
    EndReason, EventType, Phase, ProgressEvent, ProjectConfig, Role, SessionConfig, Timestamp,
};
