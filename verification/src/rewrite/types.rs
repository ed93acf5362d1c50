//! The user's rewrite configuration.

use vstd::prelude::*;

verus! {

/// One rewrite rule: a command that the pattern matches is replaced by the
/// template, filled in from the match.
#[derive(Debug, Clone, PartialEq, Eq)]
pub struct RewriteRule {
    /// Regex pattern matched against the command.
    pub match_pattern: String,
    /// Replacement template with `{0}`, `{1}`, ... and `{rest}`.
    pub replace: String,
}

/// Patterns of commands that are never rewritten.
#[derive(Debug, Clone, PartialEq, Eq)]
pub struct SkipConfig {
    pub patterns: Vec<String>,
}

/// The user's rewrite configuration.
#[derive(Debug, Clone, PartialEq, Eq)]
pub struct RewriteConfig {
    pub skip: Option<SkipConfig>,
    pub rewrite: Vec<RewriteRule>,
}

impl Default for RewriteConfig {
    fn default() -> (out: Self)
        ensures
            out.skip is None,
            out.rewrite@.len() == 0,
    {
        RewriteConfig { skip: None, rewrite: Vec::new() }
    }
}

} // verus!
