use tokf::config::{command_pattern_to_regex, pattern_matches_prefix, pattern_specificity};

// --- pattern_specificity ---

#[test]
fn specificity_two_literals() {
    assert_eq!(pattern_specificity("git push"), 2);
}

#[test]
fn specificity_wildcard_counts_less() {
    assert_eq!(pattern_specificity("git *"), 1);
    assert_eq!(pattern_specificity("* push"), 1);
}

#[test]
fn specificity_all_wildcards() {
    assert_eq!(pattern_specificity("* *"), 0);
}

#[test]
fn specificity_ordering() {
    // "git push" more specific than "git *" more specific than "* push"
    assert!(pattern_specificity("git push") > pattern_specificity("git *"));
    assert!(pattern_specificity("git *") == pattern_specificity("* push"));
}

// --- pattern_matches_prefix ---

#[test]
fn matches_exact() {
    let words = ["git", "push"];
    assert_eq!(pattern_matches_prefix("git push", &words), Some(2));
}

#[test]
fn matches_prefix_with_trailing_args() {
    let words = ["git", "push", "origin", "main"];
    assert_eq!(pattern_matches_prefix("git push", &words), Some(2));
}

#[test]
fn matches_wildcard() {
    let words = ["npm", "run", "build"];
    assert_eq!(pattern_matches_prefix("npm run *", &words), Some(3));
}

#[test]
fn no_match_different_command() {
    let words = ["cargo", "test"];
    assert_eq!(pattern_matches_prefix("git push", &words), None);
}

#[test]
fn no_match_too_short() {
    let words = ["git"];
    assert_eq!(pattern_matches_prefix("git push", &words), None);
}

#[test]
fn empty_pattern_returns_none() {
    let words = ["git", "push"];
    assert_eq!(pattern_matches_prefix("", &words), None);
}

#[test]
fn empty_words_returns_none() {
    assert_eq!(pattern_matches_prefix("git push", &[]), None);
}

#[test]
fn single_word_pattern_prefix_match() {
    assert_eq!(pattern_matches_prefix("echo", &["echo"]), Some(1));
    assert_eq!(pattern_matches_prefix("echo", &["echo", "hello"]), Some(1));
    assert_eq!(pattern_matches_prefix("echo", &["ls"]), None);
}

#[test]
fn wildcard_rejects_empty_token() {
    // An empty string slice element is not a valid word match for `*`
    assert_eq!(pattern_matches_prefix("git *", &["git", ""]), None);
}

#[test]
fn wildcard_at_start() {
    let words = ["my-tool", "subcommand"];
    assert_eq!(pattern_matches_prefix("* subcommand", &words), Some(2));
}

#[test]
fn hyphenated_tool_not_ambiguous() {
    // golangci-lint run should match "golangci-lint run" but not "golangci-lint"
    let words = ["golangci-lint", "run"];
    assert_eq!(pattern_matches_prefix("golangci-lint run", &words), Some(2));
    assert_eq!(pattern_matches_prefix("golangci-lint", &words), Some(1));
}


// --- command_pattern_to_regex ---

#[test]
fn regex_from_literal_pattern() {
    let r = command_pattern_to_regex("git push");
    let re = regex::Regex::new(&r).unwrap();
    assert!(re.is_match("git push"));
    assert!(re.is_match("git push origin main"));
    assert!(!re.is_match("git status"));
}

#[test]
fn regex_from_wildcard_pattern() {
    let r = command_pattern_to_regex("npm run *");
    let re = regex::Regex::new(&r).unwrap();
    assert!(re.is_match("npm run build"));
    assert!(re.is_match("npm run test --watch"));
    assert!(!re.is_match("npm run"));
    assert!(!re.is_match("npm install"));
}
