use std::path::PathBuf;

use tokf::config::types::{CommandPattern, FilterConfig};
use tokf::config::ResolvedFilter;
use tokf::hook::handle_input;
use tokf::hook::types::{HookInput, HookResponse, ToolInput};
use tokf::rewrite::types::RewriteConfig;

fn input(tool_name: &str, command: Option<&str>) -> HookInput {
    HookInput {
        tool_name: tool_name.to_string(),
        tool_input: ToolInput { command: command.map(|c| c.to_string()) },
    }
}

fn filters() -> Vec<ResolvedFilter> {
    vec![ResolvedFilter {
        config: FilterConfig {
            command: CommandPattern::Single("git status".to_string()),
            run: None,
            skip: vec![],
            keep: vec![],
            step: vec![],
            extract: None,
            match_output: vec![],
            section: vec![],
            on_success: None,
            on_failure: None,
            parse: None,
            output: None,
            fallback: None,
            replace: vec![],
            dedup: false,
            dedup_window: None,
            strip_ansi: false,
            trim_lines: false,
            strip_empty_lines: false,
            collapse_empty_lines: false,
            lua_script: None,
        },
        source_path: PathBuf::from("/filters/git-status.toml"),
        relative_path: PathBuf::from("git-status.toml"),
        priority: 0,
    }]
}

fn handle(tool_name: &str, command: Option<&str>) -> bool {
    handle_input(&input(tool_name, command), &RewriteConfig::default(), &filters()).is_some()
}

#[test]
fn handle_bash_with_no_matching_filter() {
    assert!(!handle("Bash", Some("unknown-cmd")));
}

#[test]
fn handle_non_bash_tool_passes_through() {
    assert!(!handle("Read", None));
    assert!(!handle("Read", Some("git status")));
}

#[test]
fn handle_bash_no_command_passes_through() {
    assert!(!handle("Bash", None));
}

#[test]
fn handle_tokf_command_not_rewritten() {
    assert!(!handle("Bash", Some("tokf run git status")));
}

#[test]
fn handle_json_with_config_rewrites_matching_command() {
    let response =
        handle_input(&input("Bash", Some("git status")), &RewriteConfig::default(), &filters());
    let response = response.expect("expected rewrite to occur for matching command");
    assert_eq!(response.hook_specific_output.updated_input.command, "tokf run git status");
    assert_eq!(response.hook_specific_output.hook_event_name, "PreToolUse");
    assert_eq!(response.hook_specific_output.permission_decision, "allow");
}

#[test]
fn handle_json_with_config_no_match_returns_false() {
    let response = handle_input(
        &input("Bash", Some("unknown-xyz-cmd-99")),
        &RewriteConfig::default(),
        &[],
    );
    assert!(response.is_none());
}

#[test]
fn serialize_hook_response() {
    let response = HookResponse::rewrite("tokf run git status".to_string());
    assert_eq!(response.hook_specific_output.hook_event_name, "PreToolUse");
    assert_eq!(response.hook_specific_output.permission_decision, "allow");
    assert_eq!(response.hook_specific_output.updated_input.command, "tokf run git status");
}

#[test]
fn response_round_trip() {
    let response = HookResponse::rewrite("tokf run cargo test".to_string());
    assert_eq!(response.hook_specific_output.updated_input.command, "tokf run cargo test");
}

#[test]
fn write_hook_shim_quotes_path() {
    assert_eq!(
        tokf::hook::hook_shim("/path with spaces/tokf"),
        "#!/bin/sh\nexec '/path with spaces/tokf' hook handle\n"
    );
    assert_eq!(
        tokf::hook::hook_shim("/it's/tokf"),
        "#!/bin/sh\nexec '/it'\\''s/tokf' hook handle\n"
    );
}

#[test]
fn own_hook_commands_name_the_program_and_the_hook() {
    assert!(tokf::hook::is_own_hook_command("'/x/.tokf/hooks/pre-tool-use.sh'"));
    assert!(tokf::hook::is_own_hook_command("hook of tokf"));
    assert!(!tokf::hook::is_own_hook_command("/x/other/hooks/pre.sh"));
    assert!(!tokf::hook::is_own_hook_command("tokf run"));
    assert!(!tokf::hook::is_own_hook_command(""));
}
