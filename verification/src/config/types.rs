//! The rule set of one filter: plain data, as a rule file spells it.

use crate::text::views;
use vstd::prelude::*;

verus! {

/// `core::slice::from_ref` of the standard library: a reference to one
/// value as a slice of length one that holds it.
pub assume_specification<T>[ core::slice::from_ref::<T> ](s: &T) -> (out: &[T])
    ensures
        out@ == seq![*s],
;

/// A command pattern: one string, or a list of alternatives. In a pattern
/// the word `*` stands for any one word.
#[derive(Debug, Clone, PartialEq, Eq)]
pub enum CommandPattern {
    Single(String),
    Multiple(Vec<String>),
}

impl CommandPattern {
    /// All pattern strings of this command, in order.
    pub open spec fn pattern_texts(&self) -> Seq<Seq<char>> {
        match self {
            CommandPattern::Single(s) => seq![s@],
            CommandPattern::Multiple(v) => views(v@),
        }
    }

    /// The first pattern string, or the empty text where there is none.
    pub open spec fn first_text(&self) -> Seq<char> {
        if self.pattern_texts().len() > 0 {
            self.pattern_texts()[0]
        } else {
            Seq::empty()
        }
    }

    /// All pattern strings for this command.
    pub fn patterns(&self) -> (out: &[String])
        ensures
            views(out@) == self.pattern_texts(),
    {
        match self {
            CommandPattern::Single(s) => {
                let out = core::slice::from_ref(s);
                assert(views(out@) =~= seq![s@]);
                out
            },
            CommandPattern::Multiple(v) => v.as_slice(),
        }
    }

    /// Canonical (first) pattern string, used for display and dedup.
    pub fn first(&self) -> (out: &str)
        ensures
            out@ == self.first_text(),
    {
        match self {
            CommandPattern::Single(s) => s.as_str(),
            CommandPattern::Multiple(v) => {
                if v.len() > 0 {
                    v[0].as_str()
                } else {
                    proof {
                        reveal_strlit("");
                    }
                    ""
                }
            },
        }
    }
}

impl Default for CommandPattern {
    fn default() -> (out: Self)
        ensures
            out is Single,
            out->Single_0@ == Seq::<char>::empty(),
    {
        CommandPattern::Single(String::new())
    }
}

/// The rule set of one filter.
#[derive(Debug, Clone, PartialEq, Eq)]
pub struct FilterConfig {
    /// The command this filter applies to (e.g. "git push").
    pub command: CommandPattern,
    /// Optional override command to actually run instead.
    pub run: Option<String>,
    /// Patterns for lines to skip.
    pub skip: Vec<String>,
    /// Patterns for lines to keep (inverse of skip).
    pub keep: Vec<String>,
    /// Pipeline steps to run before filtering.
    pub step: Vec<Step>,
    /// Extract a single value from the output.
    pub extract: Option<ExtractRule>,
    /// Whole-output matchers checked before any line processing.
    pub match_output: Vec<MatchOutputRule>,
    /// State-machine sections for collecting lines into named groups.
    pub section: Vec<Section>,
    /// Branch taken when the command exits 0.
    pub on_success: Option<OutputBranch>,
    /// Branch taken when the command exits non-zero.
    pub on_failure: Option<OutputBranch>,
    /// Structured parsing rules (branch line, file grouping).
    pub parse: Option<ParseConfig>,
    /// Output formatting configuration.
    pub output: Option<OutputConfig>,
    /// Fallback behavior when no other rule matches.
    pub fallback: Option<FallbackConfig>,
    /// Per-line regex replacement steps, applied before skip/keep.
    pub replace: Vec<ReplaceRule>,
    /// Collapse consecutive identical lines (or within a sliding window).
    pub dedup: bool,
    /// Window size for dedup (default: consecutive only).
    pub dedup_window: Option<usize>,
    /// Strip ANSI escape sequences before skip/keep pattern matching.
    pub strip_ansi: bool,
    /// Trim leading/trailing whitespace from each line before skip/keep matching.
    pub trim_lines: bool,
    /// Remove all blank lines from the final output.
    pub strip_empty_lines: bool,
    /// Collapse consecutive blank lines into one in the final output.
    pub collapse_empty_lines: bool,
    /// Optional script that may replace the output.
    pub lua_script: Option<ScriptConfig>,
}

/// A pipeline step that runs a sub-command and captures its output.
#[derive(Debug, Clone, PartialEq, Eq)]
pub struct Step {
    /// Command to run.
    pub run: String,
    /// Name to bind the output to in the template context.
    pub as_name: Option<String>,
    /// Whether this step is part of a pipeline.
    pub pipeline: Option<bool>,
}

/// Extracts a value from text using a regex pattern and formats it.
#[derive(Debug, Clone, PartialEq, Eq)]
pub struct ExtractRule {
    /// Regex pattern with capture groups.
    pub pattern: String,
    /// Output template using `{1}`, `{2}`, etc. for captures.
    pub output: String,
}

/// Matches against the full output and short-circuits with a fixed message.
#[derive(Debug, Clone, PartialEq, Eq)]
pub struct MatchOutputRule {
    /// Substring to search for in the combined output.
    pub contains: String,
    /// Output to emit if the substring is found.
    pub output: String,
}

/// A state-machine section that collects lines between enter/exit markers.
#[derive(Debug, Clone, PartialEq, Eq)]
pub struct Section {
    /// Name of this section (for diagnostics).
    pub name: Option<String>,
    /// Regex that activates this section.
    pub enter: Option<String>,
    /// Regex that deactivates this section.
    pub exit: Option<String>,
    /// Regex that individual lines must match to be collected.
    pub match_pattern: Option<String>,
    /// Regex to split collected content into blocks.
    pub split_on: Option<String>,
    /// Variable name for the collected lines/blocks.
    pub collect_as: Option<String>,
}

/// Output branch for success/failure exit codes.
#[derive(Debug, Clone, PartialEq, Eq)]
pub struct OutputBranch {
    /// Template string for the output.
    pub output: Option<String>,
    /// Aggregation rule for collected sections.
    pub aggregate: Option<AggregateRule>,
    /// Number of lines to keep from the tail.
    pub tail: Option<usize>,
    /// Number of lines to keep from the head.
    pub head: Option<usize>,
    /// Patterns for lines to skip within this branch.
    pub skip: Vec<String>,
    /// Extract rule applied within this branch.
    pub extract: Option<ExtractRule>,
}

/// Aggregates values from a collected section using regex extraction.
#[derive(Debug, Clone, PartialEq, Eq)]
pub struct AggregateRule {
    /// Name of the collected section to aggregate from.
    pub from: String,
    /// Regex pattern to extract numeric values.
    pub pattern: String,
    /// Name for the summed value.
    pub sum: Option<String>,
    /// Name for the count of matching entries.
    pub count_as: Option<String>,
}

/// Structured parsing configuration for status-like outputs.
#[derive(Debug, Clone, PartialEq, Eq)]
pub struct ParseConfig {
    /// Rule for extracting the branch name from one line.
    pub branch: Option<LineExtract>,
    /// Rule for grouping the other lines by a key.
    pub group: Option<GroupConfig>,
}

/// Extracts a value from a specific line number.
#[derive(Debug, Clone, PartialEq, Eq)]
pub struct LineExtract {
    /// 1-based line number to extract from.
    pub line: usize,
    /// Regex pattern with capture groups.
    pub pattern: String,
    /// Output template using `{1}`, `{2}`, etc. for captures.
    pub output: String,
}

/// Groups lines by a key pattern and maps keys to human labels.
#[derive(Debug, Clone, PartialEq, Eq)]
pub struct GroupConfig {
    /// Rule for extracting the group key from each line.
    pub key: ExtractRule,
    /// Pairs of raw key and human-readable label; for a key that occurs
    /// more than once the first pair counts.
    pub labels: Vec<(String, String)>,
}

/// Output formatting configuration for the final rendered result.
#[derive(Debug, Clone, PartialEq, Eq)]
pub struct OutputConfig {
    /// Top-level output format template.
    pub format: Option<String>,
    /// Format template for each group count line.
    pub group_counts_format: Option<String>,
    /// Message to emit when there are no items to report.
    pub empty: Option<String>,
}

impl Default for OutputConfig {
    fn default() -> (out: Self)
        ensures
            out == (OutputConfig { format: None, group_counts_format: None, empty: None }),
    {
        OutputConfig { format: None, group_counts_format: None, empty: None }
    }
}

/// Fallback behavior when no specific rule matches.
#[derive(Debug, Clone, PartialEq, Eq)]
pub struct FallbackConfig {
    /// Number of lines to keep from the tail as a last resort.
    pub tail: Option<usize>,
}

/// One per-line regex replacement step: a line that the pattern matches is
/// replaced by the output template, filled in with the capture groups.
#[derive(Debug, Clone, PartialEq, Eq)]
pub struct ReplaceRule {
    pub pattern: String,
    pub output: String,
}

/// Supported scripting languages for the script escape hatch.
#[derive(Debug, Clone, PartialEq, Eq)]
pub enum ScriptLang {
    Luau,
}

/// Script escape hatch configuration. Exactly one of `file` or `source`
/// is meant to be set.
#[derive(Debug, Clone, PartialEq, Eq)]
pub struct ScriptConfig {
    pub lang: ScriptLang,
    /// Path to a script file.
    pub file: Option<String>,
    /// Inline script source.
    pub source: Option<String>,
}

} // verus!
