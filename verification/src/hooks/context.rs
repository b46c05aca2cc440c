//! The contexts handed to hooks at each point of a session.
use vstd::prelude::*;
use std::collections::HashMap;
use std::path::PathBuf;
use crate::hooks::traits::Context;
use crate::types::Role;

verus! {

/// A tool call about to run.
#[derive(Clone)]
pub struct ToolPreContext {
    pub tool_name: String,
    pub args: HashMap<String, String>,
}

impl Context for ToolPreContext {}

/// A tool call that has run.
#[derive(Clone)]
pub struct ToolPostContext {
    pub tool_name: String,
    pub args: HashMap<String, String>,
    pub result: String,
    pub success: bool,
}

impl Context for ToolPostContext {}

/// A session starting in a project.
#[derive(Clone)]
pub struct SessionStartContext {
    pub project_path: PathBuf,
    pub role: Role,
}

impl Context for SessionStartContext {}

/// A session ending after some turns.
#[derive(Clone)]
pub struct SessionEndContext {
    pub turn_count: u32,
    pub project_path: PathBuf,
}

impl Context for SessionEndContext {}

} // verus!
