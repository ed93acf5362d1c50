use tokf::config::types::{CommandPattern, FilterConfig, OutputBranch, ReplaceRule};
use tokf::filter;
use tokf::runner::CommandResult;

fn config() -> FilterConfig {
    FilterConfig {
        command: CommandPattern::Single("test".to_string()),
        run: None,
        skip: vec![],
        keep: vec![],
        step: vec![],
        extract: None,
        match_output: vec![],
        section: vec![],
        on_success: None,
        on_failure: None,
        parse: None,
        output: None,
        fallback: None,
        replace: vec![],
        dedup: false,
        dedup_window: None,
        strip_ansi: false,
        trim_lines: false,
        strip_empty_lines: false,
        collapse_empty_lines: false,
        lua_script: None,
    }
}

fn on_success(output: &str) -> Option<OutputBranch> {
    Some(OutputBranch {
        output: Some(output.to_string()),
        aggregate: None,
        tail: None,
        head: None,
        skip: vec![],
        extract: None,
    })
}

fn result(output: &str, exit_code: i32) -> CommandResult {
    CommandResult {
        stdout: String::new(),
        stderr: String::new(),
        exit_code,
        combined: output.to_string(),
    }
}

fn rule(pattern: &str, output: &str) -> ReplaceRule {
    ReplaceRule { pattern: pattern.to_string(), output: output.to_string() }
}

#[test]
fn replace_reformats_columns() {
    let mut cfg = config();
    cfg.replace = vec![rule(r"^(\S+)\s+(\S+)\s+(\S+)", "{1}: {2} → {3}")];
    cfg.on_success = on_success("{output}");
    let r = result("pkg  1.0  2.0\nother  a  b", 0);
    let out = filter::apply(&cfg, &r, None).output;
    assert_eq!(out, "pkg: 1.0 → 2.0\nother: a → b");
}

#[test]
fn engine_gaps_replace_multiple_rules_chain() {
    let mut cfg = config();
    cfg.replace = vec![rule("foo", "bar"), rule("bar", "baz")];
    cfg.on_success = on_success("{output}");
    let r = result("foo\nnoop", 0);
    let out = filter::apply(&cfg, &r, None).output;
    assert_eq!(out, "baz\nnoop");
}

#[test]
fn engine_gaps_replace_no_match_passthrough() {
    let mut cfg = config();
    cfg.replace = vec![rule("NOMATCH", "replaced")];
    cfg.on_success = on_success("{output}");
    let r = result("hello world", 0);
    let out = filter::apply(&cfg, &r, None).output;
    assert_eq!(out, "hello world");
}

#[test]
fn dedup_collapses_consecutive() {
    let mut cfg = config();
    cfg.dedup = true;
    cfg.on_success = on_success("{output}");
    let r = result("a\na\nb\nb", 0);
    let out = filter::apply(&cfg, &r, None).output;
    assert_eq!(out, "a\nb");
}

#[test]
fn engine_gaps_dedup_window_drops_within_window() {
    let mut cfg = config();
    cfg.dedup = true;
    cfg.dedup_window = Some(3);
    cfg.on_success = on_success("{output}");
    // "a" reappears within window of 3 → dropped
    let r = result("a\nb\na", 0);
    let out = filter::apply(&cfg, &r, None).output;
    assert_eq!(out, "a\nb");
}

#[test]
fn pipe_lines_and_keep_filter() {
    let mut cfg = config();
    cfg.on_success = on_success("{output | lines | keep: \"^error\" | join: \"\\n\"}");
    let r = result("good line\nerror: bad\ngood again", 0);
    let out = filter::apply(&cfg, &r, None).output;
    assert_eq!(out, "error: bad");
}

#[test]
fn pipe_where_alias_filters_lines() {
    let mut cfg = config();
    cfg.on_success = on_success("{output | lines | where: \"^WARN\" | join: \"\\n\"}");
    let r = result(
        "INFO startup\nWARN: disk low\nINFO done\nWARN: high memory",
        0,
    );
    let out = filter::apply(&cfg, &r, None).output;
    assert_eq!(out, "WARN: disk low\nWARN: high memory");
}
