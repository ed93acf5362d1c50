use tokf::config::types::{ExtractRule, GroupConfig, LineExtract, OutputConfig, ParseConfig};
use tokf::filter::parse::{extract_from, find_label, render_output, run_parse, ParseResult};

const STATUS: &[&str] = &[
    "## main...origin/main",
    "M  src/a.rs",
    " M src/b.rs",
    "?? new.txt",
    "?? other.txt",
    "ZZ unlabelled",
    "nokeyhere",
];

fn labels() -> Vec<(String, String)> {
    vec![
        ("M ".to_string(), "modified".to_string()),
        (" M".to_string(), "modified (unstaged)".to_string()),
        ("??".to_string(), "untracked".to_string()),
        ("M ".to_string(), "shadowed".to_string()),
    ]
}

fn status_config() -> ParseConfig {
    ParseConfig {
        branch: Some(LineExtract {
            line: 1,
            pattern: r"^## (\S+?)(?:\.\.\.|$)".to_string(),
            output: "{1}".to_string(),
        }),
        group: Some(GroupConfig {
            key: ExtractRule { pattern: r"^(.{2}) ".to_string(), output: "{1}".to_string() },
            labels: labels(),
        }),
    }
}

fn status_output() -> OutputConfig {
    OutputConfig {
        format: Some("{branch}\n{group_counts}".to_string()),
        group_counts_format: Some("  {label}: {count}".to_string()),
        empty: Some("clean \u{2014} nothing to commit".to_string()),
    }
}

fn groups(items: &[(&str, usize)]) -> Vec<(String, usize)> {
    items.iter().map(|(l, c)| (l.to_string(), *c)).collect()
}

#[test]
fn parse_extracts_branch_and_counts_groups_in_order_of_first_occurrence() {
    let result = run_parse(&status_config(), STATUS);
    assert_eq!(result.branch, Some("main".to_string()));
    assert_eq!(
        result.groups,
        groups(&[("modified", 1), ("modified (unstaged)", 1), ("untracked", 2), ("ZZ", 1)])
    );
}

#[test]
fn git_status_normal() {
    let result = run_parse(&status_config(), &STATUS[..5]);
    assert_eq!(
        render_output(&status_output(), &result),
        "main\n  modified: 1\n  modified (unstaged): 1\n  untracked: 2"
    );
}

#[test]
fn git_status_clean() {
    let result = run_parse(&status_config(), &["## main"]);
    assert_eq!(result, ParseResult { branch: Some("main".to_string()), groups: vec![] });
    assert_eq!(
        render_output(&status_output(), &result),
        "main\nclean \u{2014} nothing to commit"
    );
}

#[test]
fn chosen_line_is_not_grouped() {
    let mut config = status_config();
    config.group.as_mut().unwrap().key.pattern = r"^(\S\S)".to_string();
    let result = run_parse(&config, &["## main", "## other"]);
    assert_eq!(result.branch, Some("main".to_string()));
    assert_eq!(result.groups, groups(&[("##", 1)]));

    config.branch.as_mut().unwrap().line = 2;
    let result = run_parse(&config, &["## main", "## other"]);
    assert_eq!(result.branch, Some("other".to_string()));
    assert_eq!(result.groups, groups(&[("##", 1)]));
}

#[test]
fn line_number_outside_the_lines_extracts_nothing() {
    let mut config = status_config();
    config.branch.as_mut().unwrap().line = 0;
    let result = run_parse(&config, STATUS);
    assert_eq!(result.branch, None);
    assert_eq!(result.groups.len(), 5);
    assert_eq!(result.groups[0], ("##".to_string(), 1));

    config.branch.as_mut().unwrap().line = 8;
    assert_eq!(run_parse(&config, STATUS).branch, None);
    config.branch.as_mut().unwrap().line = 7;
    assert_eq!(run_parse(&config, STATUS).branch, None);
    assert_eq!(run_parse(&config, &[]), ParseResult { branch: None, groups: vec![] });
}

#[test]
fn parse_without_rules_finds_nothing() {
    let config = ParseConfig { branch: None, group: None };
    assert_eq!(run_parse(&config, STATUS), ParseResult { branch: None, groups: vec![] });
}

#[test]
fn parse_with_patterns_that_do_not_compile_finds_nothing() {
    let mut config = status_config();
    config.branch.as_mut().unwrap().pattern = "(".to_string();
    config.group.as_mut().unwrap().key.pattern = "[".to_string();
    assert_eq!(run_parse(&config, STATUS), ParseResult { branch: None, groups: vec![] });
}

#[test]
fn render_output_defaults() {
    let result = ParseResult { branch: Some("main".to_string()), groups: vec![] };
    assert_eq!(render_output(&OutputConfig::default(), &result), "main\n");
    let result = ParseResult { branch: None, groups: groups(&[("a", 2), ("b", 10)]) };
    assert_eq!(render_output(&OutputConfig::default(), &result), "\na: 2\nb: 10");
}

#[test]
fn render_output_uses_the_templates_given() {
    let output = OutputConfig {
        format: Some("on {branch}: {group_counts}!".to_string()),
        group_counts_format: Some("{count}x{label}".to_string()),
        empty: Some("nothing".to_string()),
    };
    let result = ParseResult { branch: Some("dev".to_string()), groups: groups(&[("a", 2), ("b", 1)]) };
    assert_eq!(render_output(&output, &result), "on dev: 2xa\n1xb!");
    let result = ParseResult { branch: Some("dev".to_string()), groups: vec![] };
    assert_eq!(render_output(&output, &result), "on dev: nothing!");
}

#[test]
fn labels_are_looked_up_first_pair_first() {
    assert_eq!(find_label(&labels(), "M "), "modified");
    assert_eq!(find_label(&labels(), "??"), "untracked");
    assert_eq!(find_label(&labels(), "XX"), "XX");
    assert_eq!(find_label(&vec![], "XX"), "XX");
}

#[test]
fn extract_from_fills_the_template() {
    assert_eq!(extract_from(r"(\w+)=(\w+)", "{2}<-{1}", "a=b c=d"), Some("b<-a".to_string()));
    assert_eq!(extract_from(r"(\w+)=(\w+)", "{2}<-{1}", "nothing"), None);
    assert_eq!(extract_from(r"(\w+=(\w+)", "{2}<-{1}", "a=b"), None);
}
