//! The editor hook: deciding whether a tool call is rewritten.

pub mod types;

use crate::config::ResolvedFilter;
use crate::hook::types::{HookInput, HookResponse};
use crate::rewrite::types::RewriteConfig;
use crate::rewrite::{rewrite_with_config, rewritten};
use crate::runner::{shell_escape, shell_escaped};
use crate::text::{contains, contains_str, same_text};
use vstd::prelude::*;
use vstd::string::*;

verus! {

/// The name of the tool whose calls are rewritten.
pub const SHELL_TOOL: &'static str = "Bash";

/// The command that replaces the one of a tool call: that of a call of the
/// shell tool that carries a command which rewriting changes. `None` for
/// every other call, which then passes through.
pub open spec fn hook_rewrite(
    input: HookInput,
    config: RewriteConfig,
    filters: Seq<ResolvedFilter>,
) -> Option<Seq<char>> {
    if input.tool_name@ == SHELL_TOOL@ {
        match input.tool_input.command {
            Some(command) => {
                let new = rewritten(command@, config, filters);
                if new == command@ {
                    None
                } else {
                    Some(new)
                }
            },
            None => None,
        }
    } else {
        None
    }
}

/// Decides on one hook invocation: the response that rewrites the command,
/// or `None` to let the call pass through.
pub fn handle_input(input: &HookInput, user_config: &RewriteConfig, filters: &[ResolvedFilter]) -> (out:
    Option<HookResponse>)
    ensures
        match out {
            Some(response) => hook_rewrite(*input, *user_config, filters@) == Some(
                response.hook_specific_output.updated_input.command@,
            ) && response.hook_specific_output.hook_event_name@ == "PreToolUse"@
                && response.hook_specific_output.permission_decision@ == "allow"@,
            None => hook_rewrite(*input, *user_config, filters@) is None,
        },
{
    if !same_text(input.tool_name.as_str(), SHELL_TOOL) {
        return None;
    }
    match &input.tool_input.command {
        Some(command) => {
            let new = rewrite_with_config(command.as_str(), user_config, filters);
            if same_text(new.as_str(), command.as_str()) {
                None
            } else {
                Some(HookResponse::rewrite(new))
            }
        },
        None => None,
    }
}

/// Whether a hook command of the editor's settings is this program's own:
/// it names the program and the hook.
pub open spec fn own_hook_command(command: Seq<char>) -> bool {
    contains(command, "tokf"@) && contains(command, "hook"@)
}

/// Tells whether a hook command of the editor's settings is this
/// program's own, so that a new installation replaces it.
pub fn is_own_hook_command(command: &str) -> (out: bool)
    ensures
        out == own_hook_command(command@),
{
    contains_str(command, "tokf") && contains_str(command, "hook")
}

/// The script that the editor runs as the hook: a shell script that hands
/// over to the program at `program_path`.
pub open spec fn hook_shim_text(program_path: Seq<char>) -> Seq<char> {
    "#!/bin/sh\nexec "@ + shell_escaped(program_path) + " hook handle\n"@
}

/// Writes the text of the hook script.
pub fn hook_shim(program_path: &str) -> (out: String)
    ensures
        out@ == hook_shim_text(program_path@),
{
    let mut out = "#!/bin/sh\nexec ".to_owned();
    let quoted = shell_escape(program_path);
    out.append(quoted.as_str());
    out.append(" hook handle\n");
    out
}

} // verus!
