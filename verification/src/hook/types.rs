//! The messages exchanged with the editor hook.

use vstd::prelude::*;

verus! {

/// The input of a `PreToolUse` hook.
#[derive(Debug, Clone)]
pub struct HookInput {
    pub tool_name: String,
    pub tool_input: ToolInput,
}

/// The `tool_input` payload from the hook.
#[derive(Debug, Clone)]
pub struct ToolInput {
    pub command: Option<String>,
}

/// Response to send back when rewriting a command.
#[derive(Debug, Clone)]
pub struct HookResponse {
    pub hook_specific_output: HookSpecificOutput,
}

/// The specific output that asks for a different command.
#[derive(Debug, Clone)]
pub struct HookSpecificOutput {
    pub hook_event_name: &'static str,
    pub permission_decision: &'static str,
    pub updated_input: UpdatedInput,
}

/// The updated tool input with the rewritten command.
#[derive(Debug, Clone)]
pub struct UpdatedInput {
    pub command: String,
}

impl HookResponse {
    /// Create a response that rewrites the command.
    pub fn rewrite(command: String) -> (out: Self)
        ensures
            out.hook_specific_output.hook_event_name@ == "PreToolUse"@,
            out.hook_specific_output.permission_decision@ == "allow"@,
            out.hook_specific_output.updated_input.command@ == command@,
    {
        HookResponse {
            hook_specific_output: HookSpecificOutput {
                hook_event_name: "PreToolUse",
                permission_decision: "allow",
                updated_input: UpdatedInput { command },
            },
        }
    }
}

} // verus!
