use tokf::config::types::{
    AggregateRule, CommandPattern, ExtractRule, FallbackConfig, FilterConfig, MatchOutputRule,
    OutputBranch, ScriptConfig, ScriptLang, Section,
};
use tokf::filter::dedup::{apply_dedup, dedup_consecutive, dedup_windowed};
use tokf::filter::extract::interpolate;
use tokf::filter::section::SectionMap;
use tokf::filter::{
    apply, apply_branch, apply_fallback, pre_filter, script_input, select_branch,
};
use tokf::filter::cleanup::post_process_output;
use tokf::runner::CommandResult;

fn config() -> FilterConfig {
    FilterConfig {
        command: CommandPattern::Single("test".to_string()),
        run: None,
        skip: vec![],
        keep: vec![],
        step: vec![],
        extract: None,
        match_output: vec![],
        section: vec![],
        on_success: None,
        on_failure: None,
        parse: None,
        output: None,
        fallback: None,
        replace: vec![],
        dedup: false,
        dedup_window: None,
        strip_ansi: false,
        trim_lines: false,
        strip_empty_lines: false,
        collapse_empty_lines: false,
        lua_script: None,
    }
}

fn branch() -> OutputBranch {
    OutputBranch { output: None, aggregate: None, tail: None, head: None, skip: vec![], extract: None }
}

fn template(output: &str) -> OutputBranch {
    OutputBranch { output: Some(output.to_string()), ..branch() }
}

fn result(combined: &str, exit_code: i32) -> CommandResult {
    CommandResult {
        stdout: String::new(),
        stderr: String::new(),
        exit_code,
        combined: combined.to_string(),
    }
}

fn run(config: &FilterConfig, combined: &str, exit_code: i32) -> String {
    apply(config, &result(combined, exit_code), None).output
}

#[test]
fn degenerate_inputs_yield_an_output() {
    let mut cfg = config();
    assert_eq!(run(&cfg, "", 0), "");
    cfg.skip = vec!["[".to_string(), "(".to_string()];
    cfg.keep = vec!["[".to_string()];
    cfg.on_success = Some(OutputBranch {
        skip: vec!["*".to_string()],
        extract: Some(ExtractRule { pattern: "(".to_string(), output: "{1}".to_string() }),
        ..branch()
    });
    assert_eq!(run(&cfg, "a\nb", 0), "a\nb");
    assert_eq!(run(&cfg, "a\nb", 3), "a\nb");
    assert_eq!(run(&cfg, "", 3), "");
}

#[test]
fn strip_empty_lines_twice_is_once() {
    let mut cfg = config();
    cfg.strip_empty_lines = true;
    for text in ["", "\n", "a", "a\n", "\n\na\n \nb\n\n", "a\r\nb\r\n", " \t\n", "a\n\n\nb", "a\r"] {
        let once = post_process_output(&cfg, text.to_string());
        let twice = post_process_output(&cfg, once.clone());
        assert_eq!(twice, once, "for {:?}", text);
    }
}

#[test]
fn strip_empty_lines_twice_differs_after_a_doubled_carriage_return() {
    let mut cfg = config();
    cfg.strip_empty_lines = true;
    let once = post_process_output(&cfg, "a\r\r\n".to_string());
    assert_eq!(once, "a\r\n");
    assert_eq!(post_process_output(&cfg, once), "a\n");
}

#[test]
fn consecutive_dedup_leaves_no_equal_neighbours() {
    let inputs: Vec<Vec<&str>> = vec![
        vec![],
        vec!["a"],
        vec!["a", "a", "a"],
        vec!["a", "b", "b", "a", "a", "", "", "b"],
        vec![" ", " ", "  "],
    ];
    for lines in inputs {
        let out = dedup_consecutive(&lines);
        for pair in out.windows(2) {
            assert_ne!(pair[0], pair[1]);
        }
        assert_eq!(out, apply_dedup(&lines, None));
    }
}

#[test]
fn placeholder_ten_is_not_read_as_placeholder_one() {
    let groups: Vec<Option<String>> =
        "0 1 2 3 4 5 6 7 8 9 ten".split(' ').map(|s| Some(s.to_string())).collect();
    assert_eq!(interpolate("{10}", &groups), "ten");
    assert_eq!(interpolate("{10} and {1}", &groups), "ten and 1");
    assert_eq!(interpolate("{1}{10}{1}0", &groups), "1ten10");
    assert_eq!(interpolate("{11}", &groups), "{11}");
}

#[test]
fn interpolate_replaces_group_zero_even_without_groups() {
    assert_eq!(interpolate("a{0}b{1}", &[]), "ab{1}");
    assert_eq!(interpolate("a{0}b{1}", &[None, None]), "ab");
}

#[test]
fn interpolated_text_is_read_again_by_lower_groups() {
    let groups = vec![Some("zero".to_string()), Some("one".to_string()), Some("{1}{0}".to_string())];
    assert_eq!(interpolate("{2}", &groups), "onezero");
}

#[test]
fn success_exit_never_uses_the_failure_branch() {
    let mut cfg = config();
    cfg.on_failure = Some(template("FAILED"));
    assert_eq!(run(&cfg, "a\nb\nc", 0), "a\nb\nc");
    assert_eq!(run(&cfg, "a\nb\nc", 1), "FAILED");
    cfg.fallback = Some(FallbackConfig { tail: Some(2) });
    assert_eq!(run(&cfg, "a\nb\nc", 0), "b\nc");
    assert!(select_branch(&cfg, 0).is_none());
    assert_eq!(select_branch(&cfg, -1), cfg.on_failure.as_ref());
}

#[test]
fn failure_exit_never_uses_the_success_branch() {
    let mut cfg = config();
    cfg.on_success = Some(template("ok"));
    assert_eq!(run(&cfg, "a", 2), "a");
    assert_eq!(run(&cfg, "a", 0), "ok");
    assert_eq!(select_branch(&cfg, 0), cfg.on_success.as_ref());
}

#[test]
fn tail_is_applied_before_head() {
    let b = OutputBranch { tail: Some(3), head: Some(2), ..branch() };
    assert_eq!(
        apply_branch(&b, "a\nb\nc\nd", &SectionMap::new(), false),
        Some("b\nc".to_string())
    );
}

#[test]
fn skip_then_extract_scenario() {
    let b = OutputBranch {
        skip: vec!["^noise".to_string()],
        extract: Some(ExtractRule {
            pattern: r"(\w+) -> (\w+)".to_string(),
            output: "ok {2}".to_string(),
        }),
        ..branch()
    };
    let mut cfg = config();
    cfg.on_success = Some(b);
    assert_eq!(run(&cfg, "noise line\nmain -> main\nnoise again", 0), "ok main");
}

#[test]
fn branch_skip_comes_before_extract() {
    let b = OutputBranch {
        skip: vec!["^first".to_string()],
        extract: Some(ExtractRule { pattern: r"(\w+) x".to_string(), output: "{1}".to_string() }),
        ..branch()
    };
    assert_eq!(
        apply_branch(&b, "first x\nsecond x", &SectionMap::new(), false),
        Some("second".to_string())
    );
}

#[test]
fn match_output_scenario() {
    let mut cfg = config();
    cfg.match_output = vec![MatchOutputRule {
        contains: "up-to-date".to_string(),
        output: "ok (up-to-date)".to_string(),
    }];
    cfg.on_success = Some(template("success"));
    cfg.on_failure = Some(template("failure"));
    assert_eq!(run(&cfg, "Everything up-to-date", 0), "ok (up-to-date)");
    assert_eq!(run(&cfg, "Everything up-to-date", 1), "ok (up-to-date)");
    assert_eq!(run(&cfg, "Everything else", 0), "success");
}

#[test]
fn match_output_sees_the_raw_output() {
    let mut cfg = config();
    cfg.skip = vec!["secret".to_string()];
    cfg.match_output = vec![MatchOutputRule {
        contains: "secret".to_string(),
        output: "found: {line_containing} / {output}".to_string(),
    }];
    assert_eq!(run(&cfg, "a\nthe secret\nb", 0), "found: the secret / a\nthe secret\nb");
}

#[test]
fn dedup_window_scenarios() {
    assert_eq!(apply_dedup(&["a", "b", "a"], Some(3)), vec!["a", "b"]);
    assert_eq!(apply_dedup(&["a", "b", "c", "a"], Some(2)), vec!["a", "b", "c", "a"]);
    assert_eq!(dedup_windowed(&["a", "a", "b", "a"], 1), vec!["a", "b", "a"]);
    assert_eq!(dedup_windowed(&["a", "a", "b", "a"], 0), vec!["a", "a", "b", "a"]);
    assert_eq!(dedup_windowed(&["a", "b", "a", "c", "b"], 2), vec!["a", "b", "c"]);
}

#[test]
fn pipe_chain_scenario() {
    let mut cfg = config();
    cfg.on_success = Some(template("{output | lines | keep: \"^WARN\" | join: \"\\n\"}"));
    assert_eq!(run(&cfg, "INFO x\nWARN: y\nINFO z\nWARN: w", 0), "WARN: y\nWARN: w");
}

#[test]
fn stages_run_in_order() {
    let mut cfg = config();
    cfg.replace = vec![tokf::config::types::ReplaceRule {
        pattern: r"^\s*x(\d)".to_string(),
        output: " \u{1b}[31mline {1}\u{1b}[0m ".to_string(),
    }];
    cfg.strip_ansi = true;
    cfg.trim_lines = true;
    cfg.skip = vec!["^line 3$".to_string()];
    cfg.keep = vec!["^line".to_string()];
    cfg.dedup = true;
    assert_eq!(
        pre_filter(&cfg, "x1\nx1\n  x2\nother\nx3\nx2\n line 9"),
        vec!["line 1".to_string(), "line 2".to_string(), "line 9".to_string()]
    );
    assert_eq!(run(&cfg, "x1\nx1\n  x2\nother\nx3\nx2\n line 9", 0), "line 1\nline 2\nline 9");
}

#[test]
fn sections_see_the_raw_lines() {
    let mut cfg = config();
    cfg.skip = vec!["^item".to_string()];
    cfg.section = vec![Section {
        name: None,
        enter: None,
        exit: None,
        match_pattern: Some("^item".to_string()),
        split_on: None,
        collect_as: Some("items".to_string()),
    }];
    cfg.on_success = Some(template("{items.count}: {output}"));
    assert_eq!(run(&cfg, "item a\nx\nitem b", 0), "2: x");
}

fn summary_config() -> FilterConfig {
    let mut cfg = config();
    cfg.section = vec![Section {
        name: Some("summary".to_string()),
        enter: None,
        exit: None,
        match_pattern: Some("^test result:".to_string()),
        split_on: None,
        collect_as: Some("summary_lines".to_string()),
    }];
    cfg.on_success = Some(OutputBranch {
        output: Some("\u{2713} cargo test: {passed} passed ({suites} suites)".to_string()),
        aggregate: Some(AggregateRule {
            from: "summary_lines".to_string(),
            pattern: r"(\d+) passed".to_string(),
            sum: Some("passed".to_string()),
            count_as: Some("suites".to_string()),
        }),
        ..branch()
    });
    cfg.on_failure = Some(template("FAILURES: {summary_lines.count}"));
    cfg.fallback = Some(FallbackConfig { tail: Some(2) });
    cfg
}

#[test]
fn cargo_test_pass_aggregates_summaries() {
    let out = run(
        &summary_config(),
        "running\ntest result: ok. 12 passed\nx\ntest result: ok. 8 passed\ntest result: ok. 3 passed",
        0,
    );
    assert_eq!(out, "\u{2713} cargo test: 23 passed (3 suites)");
}

#[test]
fn cargo_test_compile_error_falls_back_to_tail() {
    let out = run(&summary_config(), "error a\nerror b\ncould not compile\nlast", 101);
    assert_eq!(out, "could not compile\nlast");
}

#[test]
fn branch_with_aggregate_over_empty_sections_still_renders() {
    let out = run(&summary_config(), "nothing\nhere", 0);
    assert_eq!(out, "\u{2713} cargo test: 0 passed (0 suites)");
}

#[test]
fn template_branch_without_sections_is_never_suppressed() {
    let b = template("static {output}");
    assert_eq!(
        apply_branch(&b, "x", &SectionMap::new(), false),
        Some("static x".to_string())
    );
    assert_eq!(apply_branch(&b, "x", &SectionMap::new(), true), None);
    let no_template = branch();
    assert_eq!(apply_branch(&no_template, "x", &SectionMap::new(), true), Some("x".to_string()));
}

#[test]
fn fallback_tail() {
    let mut cfg = config();
    assert_eq!(apply_fallback(&cfg, "a\nb\nc\n"), "a\nb\nc\n");
    cfg.fallback = Some(FallbackConfig { tail: None });
    assert_eq!(apply_fallback(&cfg, "a\nb\nc\n"), "a\nb\nc\n");
    cfg.fallback = Some(FallbackConfig { tail: Some(2) });
    assert_eq!(apply_fallback(&cfg, "a\nb\nc\n"), "b\nc");
    cfg.fallback = Some(FallbackConfig { tail: Some(3) });
    assert_eq!(apply_fallback(&cfg, "a\nb\nc\n"), "a\nb\nc\n");
    cfg.fallback = Some(FallbackConfig { tail: Some(0) });
    assert_eq!(apply_fallback(&cfg, "a\nb"), "");
    assert_eq!(apply_fallback(&cfg, ""), "");
}

fn script() -> Option<ScriptConfig> {
    Some(ScriptConfig { lang: ScriptLang::Luau, file: None, source: Some("return nil".to_string()) })
}

#[test]
fn script_output_replaces_the_later_stages() {
    let mut cfg = config();
    cfg.skip = vec!["^#".to_string()];
    cfg.on_success = Some(template("branch"));
    cfg.strip_empty_lines = true;
    let r = result("# c\nline\n# d", 0);
    assert_eq!(script_input(&cfg, &r), None);
    assert_eq!(apply(&cfg, &r, Some("ignored".to_string())).output, "branch");

    cfg.lua_script = script();
    assert_eq!(script_input(&cfg, &r), Some("line".to_string()));
    assert_eq!(apply(&cfg, &r, Some("from\n\nscript".to_string())).output, "from\nscript");
    assert_eq!(apply(&cfg, &r, None).output, "branch");
}

#[test]
fn match_output_comes_before_the_script() {
    let mut cfg = config();
    cfg.lua_script = script();
    cfg.match_output = vec![MatchOutputRule {
        contains: "fatal".to_string(),
        output: "error!".to_string(),
    }];
    let r = result("fatal: x", 1);
    assert_eq!(script_input(&cfg, &r), None);
    assert_eq!(apply(&cfg, &r, Some("script".to_string())).output, "error!");
}

#[test]
fn strip_ansi_removes_csi_osc_and_fe_sequences() {
    let mut cfg = config();
    cfg.strip_ansi = true;
    assert_eq!(
        run(&cfg, "\u{1b}[1;31mred\u{1b}[0m \u{1b}]0;title\u{7}t \u{1b}]8;;u\u{1b}\\l\u{1b}Mx\u{1b}", 0),
        "red t lx\u{1b}"
    );
}
