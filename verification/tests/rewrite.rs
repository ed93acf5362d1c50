use std::path::PathBuf;

use tokf::config::types::{CommandPattern, FilterConfig};
use tokf::config::ResolvedFilter;
use tokf::pattern::capture_groups;
use tokf::rewrite::types::{RewriteConfig, RewriteRule, SkipConfig};
use tokf::rewrite::{
    apply_rules, build_rules_from_filters, interpolate_rewrite, rewrite_with_config, should_skip,
};

fn filter(command: CommandPattern, priority: u8) -> ResolvedFilter {
    ResolvedFilter {
        config: FilterConfig {
            command,
            run: None,
            skip: vec![],
            keep: vec![],
            step: vec![],
            extract: None,
            match_output: vec![],
            section: vec![],
            on_success: None,
            on_failure: None,
            parse: None,
            output: None,
            fallback: None,
            replace: vec![],
            dedup: false,
            dedup_window: None,
            strip_ansi: false,
            trim_lines: false,
            strip_empty_lines: false,
            collapse_empty_lines: false,
            lua_script: None,
        },
        source_path: PathBuf::from("/filters/x.toml"),
        relative_path: PathBuf::from("x.toml"),
        priority,
    }
}

fn single(command: &str) -> ResolvedFilter {
    filter(CommandPattern::Single(command.to_string()), 0)
}

// --- should_skip ---

#[test]
fn skip_tokf_commands() {
    assert!(should_skip("tokf run git status", &[]));
    assert!(should_skip("tokf rewrite foo", &[]));
}

#[test]
fn skip_heredocs() {
    assert!(should_skip("cat <<EOF", &[]));
    assert!(should_skip("bash -c 'cat <<EOF'", &[]));
}

#[test]
fn skip_user_patterns() {
    let patterns = vec!["^my-internal".to_string()];
    assert!(should_skip("my-internal tool", &patterns));
    assert!(!should_skip("git status", &patterns));
}

#[test]
fn skip_invalid_user_pattern_does_not_crash() {
    let patterns = vec!["[invalid".to_string()];
    assert!(!should_skip("git status", &patterns));
}

#[test]
fn no_skip_normal_commands() {
    assert!(!should_skip("git status", &[]));
    assert!(!should_skip("cargo test", &[]));
    assert!(!should_skip("ls -la", &[]));
}

// --- apply_rules ---

#[test]
fn apply_rules_first_match_wins() {
    let rules = vec![
        RewriteRule {
            match_pattern: "^git status".to_string(),
            replace: "first {0}".to_string(),
        },
        RewriteRule {
            match_pattern: "^git".to_string(),
            replace: "second {0}".to_string(),
        },
    ];
    assert_eq!(apply_rules(&rules, "git status"), "first git status");
}

#[test]
fn apply_rules_no_match_returns_original() {
    let rules = vec![RewriteRule {
        match_pattern: "^git".to_string(),
        replace: "tokf run {0}".to_string(),
    }];
    assert_eq!(apply_rules(&rules, "ls -la"), "ls -la");
}

#[test]
fn apply_rules_empty_rules_returns_original() {
    assert_eq!(apply_rules(&[], "git status"), "git status");
}

#[test]
fn apply_rules_capture_groups() {
    let rules = vec![RewriteRule {
        match_pattern: r"^(git) (status)".to_string(),
        replace: "wrapped {1} {2}".to_string(),
    }];
    assert_eq!(apply_rules(&rules, "git status"), "wrapped git status");
}

#[test]
fn apply_rules_invalid_regex_skipped() {
    let rules = vec![
        RewriteRule {
            match_pattern: "[invalid".to_string(),
            replace: "bad".to_string(),
        },
        RewriteRule {
            match_pattern: r"^git status(\s.*)?$".to_string(),
            replace: "tokf run {0}".to_string(),
        },
    ];
    assert_eq!(apply_rules(&rules, "git status"), "tokf run git status");
}

// --- interpolate_rewrite ---

fn one_rule(pattern: &str, replace: &str) -> Vec<RewriteRule> {
    vec![RewriteRule { match_pattern: pattern.to_string(), replace: replace.to_string() }]
}

#[test]
fn interpolate_full_match() {
    let caps = capture_groups(r"^git status(\s.*)?$", "git status --short").unwrap();
    let result = interpolate_rewrite("tokf run {0}", &caps, "");
    assert_eq!(result, "tokf run git status --short");
    assert_eq!(
        apply_rules(&one_rule(r"^git status(\s.*)?$", "tokf run {0}"), "git status --short"),
        "tokf run git status --short"
    );
}

#[test]
fn interpolate_rest() {
    let caps = capture_groups(r"^git status", "git status --short -b").unwrap();
    let result = interpolate_rewrite("tokf run git status {rest}", &caps, "--short -b");
    assert_eq!(result, "tokf run git status --short -b");
    assert_eq!(
        apply_rules(
            &one_rule(r"^git status", "tokf run git status {rest}"),
            "git status --short -b"
        ),
        "tokf run git status --short -b"
    );
}

#[test]
fn interpolate_rest_empty() {
    let caps = capture_groups(r"^git status$", "git status").unwrap();
    let result = interpolate_rewrite("tokf run git status {rest}", &caps, "");
    assert_eq!(result, "tokf run git status ");
    assert_eq!(
        apply_rules(&one_rule(r"^git status$", "tokf run git status {rest}"), "git status"),
        "tokf run git status "
    );
}

#[test]
fn rest_counts_characters_not_bytes() {
    assert_eq!(
        apply_rules(&one_rule("é+", "[{0}|{rest}]"), "abééé → tail"),
        "[ééé|→ tail]"
    );
}

// --- build_rules_from_filters ---

#[test]
fn build_rules_from_empty_dir() {
    assert!(build_rules_from_filters(&[]).is_empty());
    let rules = build_rules_from_filters(&[single("git push")]);
    assert!(!rules.is_empty());
}

#[test]
fn build_rules_from_filter_files() {
    let rules = build_rules_from_filters(&[single("git status"), single("cargo test")]);
    let patterns: Vec<&str> = rules.iter().map(|r| r.match_pattern.as_str()).collect();

    let has_cargo = patterns.iter().any(|p| p.contains("cargo") && p.contains("test"));
    let has_git = patterns.iter().any(|p| p.contains("git") && p.contains("status"));
    assert!(has_cargo, "expected cargo test pattern in {:?}", patterns);
    assert!(has_git, "expected git status pattern in {:?}", patterns);

    let cargo_rule = rules.iter().find(|r| r.match_pattern.contains("cargo")).unwrap();
    let git_rule = rules.iter().find(|r| r.match_pattern.contains("status")).unwrap();
    let re_cargo = regex::Regex::new(&cargo_rule.match_pattern).unwrap();
    let re_git = regex::Regex::new(&git_rule.match_pattern).unwrap();
    assert!(re_cargo.is_match("cargo test"));
    assert!(re_cargo.is_match("cargo test --lib"));
    assert!(re_git.is_match("git status"));
    assert!(re_git.is_match("git status --short"));
    assert_eq!(
        rules,
        vec![
            RewriteRule {
                match_pattern: r"^git\ status(\s.*)?$".to_string(),
                replace: "tokf run {0}".to_string()
            },
            RewriteRule {
                match_pattern: r"^cargo\ test(\s.*)?$".to_string(),
                replace: "tokf run {0}".to_string()
            },
        ]
    );
}

#[test]
fn build_rules_dedup_across_dirs() {
    let rules = build_rules_from_filters(&[single("git status"), single("git status")]);
    let git_status_count = rules
        .iter()
        .filter(|r| r.match_pattern.contains("git") && r.match_pattern.contains("status"))
        .count();
    assert_eq!(git_status_count, 1, "git status should be deduped to one rule");
}

#[test]
fn build_rules_skips_invalid_filters() {
    let rules = build_rules_from_filters(&[single("my-tool")]);
    assert!(rules.iter().any(|r| r.match_pattern.contains("my\\-tool")));
}

#[test]
fn build_rules_multiple_command_patterns() {
    let rules = build_rules_from_filters(&[filter(
        CommandPattern::Multiple(vec!["pnpm test".to_string(), "npm test".to_string()]),
        0,
    )]);
    let patterns: Vec<&str> = rules.iter().map(|r| r.match_pattern.as_str()).collect();
    assert_eq!(patterns.len(), 2);
    assert!(patterns.iter().any(|p| p.contains("pnpm")));
    assert!(patterns.iter().any(|p| p.contains("npm") && !p.contains("pnpm")));
}

#[test]
fn build_rules_wildcard_pattern() {
    let rules = build_rules_from_filters(&[single("npm run *")]);
    let npm_run_rule = rules
        .iter()
        .find(|r| r.match_pattern.contains("npm") && r.match_pattern.contains("run"))
        .expect("expected npm run rule");
    let re = regex::Regex::new(&npm_run_rule.match_pattern).unwrap();
    assert!(re.is_match("npm run build"));
    assert!(re.is_match("npm run test"));
    assert!(!re.is_match("npm install"));
}

// --- rewrite_with_config ---

#[test]
fn rewrite_with_filter_match() {
    let config = RewriteConfig::default();
    let result = rewrite_with_config("git status", &config, &[single("git status")]);
    assert_eq!(result, "tokf run git status");
}

#[test]
fn rewrite_with_filter_match_with_args() {
    let config = RewriteConfig::default();
    let result = rewrite_with_config("git status --short", &config, &[single("git status")]);
    assert_eq!(result, "tokf run git status --short");
}

#[test]
fn rewrite_builtin_skip_tokf() {
    let config = RewriteConfig::default();
    let result = rewrite_with_config("tokf run git status", &config, &[single("tokf run")]);
    assert_eq!(result, "tokf run git status");
}

#[test]
fn rewrite_no_match_passthrough() {
    let config = RewriteConfig::default();
    let result = rewrite_with_config("unknown-cmd foo", &config, &[]);
    assert_eq!(result, "unknown-cmd foo");
}

#[test]
fn rewrite_user_rule_takes_priority() {
    let config = RewriteConfig {
        skip: None,
        rewrite: vec![RewriteRule {
            match_pattern: "^git status".to_string(),
            replace: "custom-wrapper {0}".to_string(),
        }],
    };
    let result = rewrite_with_config("git status", &config, &[single("git status")]);
    assert_eq!(result, "custom-wrapper git status");
}

#[test]
fn rewrite_user_skip_prevents_rewrite() {
    let config = RewriteConfig {
        skip: Some(SkipConfig { patterns: vec!["^git status".to_string()] }),
        rewrite: vec![],
    };
    let result = rewrite_with_config("git status", &config, &[single("git status")]);
    assert_eq!(result, "git status");
}

#[test]
fn rewrite_user_rule_that_changes_nothing_hands_on_to_filters() {
    let config = RewriteConfig {
        skip: None,
        rewrite: vec![RewriteRule {
            match_pattern: "^git status$".to_string(),
            replace: "{0}".to_string(),
        }],
    };
    let result = rewrite_with_config("git status", &config, &[single("git status")]);
    assert_eq!(result, "tokf run git status");
}

#[test]
fn default_rewrite_config_is_empty() {
    assert_eq!(RewriteConfig::default(), RewriteConfig { skip: None, rewrite: vec![] });
}
