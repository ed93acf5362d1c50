//! The filter engine: the stages that turn a command's output into its
//! summary, and their composition.
//!
//! One invocation runs the stages in a fixed order. A match-output rule
//! that fires answers for the whole output. Else the lines are rewritten,
//! cleaned, filtered and deduplicated. A configured script may then
//! replace the output. Else the structured path renders the lines, or,
//! where there is none, the branch that the exit code selects is applied,
//! with the fallback where no branch answers. Whatever path was taken, the
//! result is post-processed.

pub mod aggregate;
pub mod cleanup;
pub mod dedup;
pub mod extract;
pub mod match_output;
pub mod parse;
pub mod replace;
pub mod section;
pub mod skip;
pub mod template;

use crate::config::types::{FilterConfig, OutputBranch, OutputConfig};
use crate::filter::aggregate::{aggregated, run_aggregate};
use crate::filter::cleanup::{apply_line_cleanup, cleaned_lines, post_process_output, post_processed};
use crate::filter::dedup::{apply_dedup, deduped};
use crate::filter::extract::{apply_extract, extracted};
use crate::filter::match_output::{first_matching, match_rendered};
use crate::filter::parse::{parse_rendered, parsed, run_parse};
use crate::filter::replace::{apply_replace, replaced_lines};
use crate::filter::section::{
    any_collected, any_section_collected, collect_sections, collected_sections, SectionMap,
    SectionView,
};
use crate::filter::skip::{apply_keep, apply_skip, keep_lines, skip_lines};
use crate::filter::template::{render_template, rendered, TemplateContext};
use crate::runner::CommandResult;
use crate::table::Table;
use crate::text::{
    borrow_all, first_lines, head, join, join_lines, last_lines, lines, newline, split_lines,
    str_views, tail, views,
};
use vstd::prelude::*;

verus! {

/// The result of applying a filter to command output.
#[derive(Debug, Clone, PartialEq, Eq)]
pub struct FilterResult {
    pub output: String,
}

/// The branch that an exit code selects: the success branch for 0, the
/// failure branch for anything else.
pub open spec fn selected_branch(config: FilterConfig, exit_code: i32) -> Option<OutputBranch> {
    if exit_code == 0 {
        config.on_success
    } else {
        config.on_failure
    }
}

/// Selects the output branch based on exit code.
/// Exit code 0 selects `on_success`, anything else `on_failure`.
pub fn select_branch(config: &FilterConfig, exit_code: i32) -> (out: Option<&OutputBranch>)
    ensures
        match out {
            Some(branch) => selected_branch(*config, exit_code) == Some(*branch),
            None => selected_branch(*config, exit_code) is None,
        },
{
    if exit_code == 0 {
        config.on_success.as_ref()
    } else {
        config.on_failure.as_ref()
    }
}

/// The variables that a branch's aggregate rule binds.
pub open spec fn branch_vars(branch: OutputBranch, sections: Map<Seq<char>, SectionView>) -> Map<
    Seq<char>,
    Seq<char>,
> {
    match branch.aggregate {
        Some(rule) => aggregated(rule, sections),
        None => Map::empty(),
    }
}

/// The lines that a branch without a template works on: the last `tail`
/// lines of the text, of these the first `head`, and of these the lines
/// that the branch's skip patterns do not match.
pub open spec fn branch_lines(branch: OutputBranch, combined: Seq<char>) -> Seq<Seq<char>> {
    let all = split_lines(combined);
    let tailed = match branch.tail {
        Some(n) => last_lines(all, n as nat),
        None => all,
    };
    let headed = match branch.head {
        Some(n) => first_lines(tailed, n as nat),
        None => tailed,
    };
    skip_lines(views(branch.skip@), headed)
}

/// What a branch makes of the text. With a template: the template
/// rendered, with `output` bound to the text beside the aggregate
/// variables; but nothing where sections are configured, none of them
/// collected anything and the aggregate bound nothing. Without a template:
/// the branch's lines, through the extract rule where there is one, else
/// joined by newlines.
pub open spec fn branch_applied(
    branch: OutputBranch,
    combined: Seq<char>,
    sections: Map<Seq<char>, SectionView>,
    has_sections: bool,
) -> Option<Seq<char>> {
    let vars = branch_vars(branch, sections);
    match branch.output {
        Some(template) => if has_sections && !any_collected(sections) && vars.dom()
            =~= Set::<Seq<char>>::empty() {
            None
        } else {
            Some(rendered(template@, vars.insert("output"@, combined), sections))
        },
        None => {
            let kept = branch_lines(branch, combined);
            Some(
                match branch.extract {
                    Some(rule) => extracted(rule.pattern@, rule.output@, kept),
                    None => join(kept, newline()),
                },
            )
        },
    }
}

/// Applies a branch's processing rules to the text. Returns `None` when
/// the branch has a template, sections were expected and nothing was
/// collected: the caller then falls back.
pub fn apply_branch(
    branch: &OutputBranch,
    combined: &str,
    sections: &SectionMap,
    has_sections: bool,
) -> (out: Option<String>)
    ensures
        match out {
            Some(text) => branch_applied(*branch, combined@, sections@, has_sections) == Some(
                text@,
            ),
            None => branch_applied(*branch, combined@, sections@, has_sections) is None,
        },
{
    let mut vars: TemplateContext = match &branch.aggregate {
        Some(rule) => run_aggregate(rule, sections),
        None => Table::new(),
    };
    match &branch.output {
        Some(template) => {
            if has_sections && !any_section_collected(sections) && vars.is_empty() {
                return None;
            }
            vars.insert("output".to_owned(), combined.to_owned());
            return Some(render_template(template.as_str(), &vars, sections));
        },
        None => {},
    }
    let owned = lines(combined);
    let all = borrow_all(owned.as_slice());
    let tailed = match branch.tail {
        Some(n) => tail(all.as_slice(), n),
        None => all,
    };
    let headed = match branch.head {
        Some(n) => head(tailed.as_slice(), n),
        None => tailed,
    };
    let kept = apply_skip(branch.skip.as_slice(), headed.as_slice());
    match &branch.extract {
        Some(rule) => Some(apply_extract(rule, kept.as_slice())),
        None => Some(join_lines(kept.as_slice())),
    }
}

/// The fallback: the last lines of the text where a fallback tail is
/// configured and the text has more lines than that; else the text.
pub open spec fn fallback(config: FilterConfig, combined: Seq<char>) -> Seq<char> {
    match config.fallback {
        Some(fb) => match fb.tail {
            Some(n) => {
                let all = split_lines(combined);
                if all.len() > n {
                    join(last_lines(all, n as nat), newline())
                } else {
                    combined
                }
            },
            None => combined,
        },
        None => combined,
    }
}

/// Fallback when no branch matches or sections collected nothing.
pub fn apply_fallback(config: &FilterConfig, combined: &str) -> (out: String)
    ensures
        out@ == fallback(*config, combined@),
{
    match &config.fallback {
        Some(fb) => match fb.tail {
            Some(n) => {
                let owned = lines(combined);
                if owned.len() > n {
                    let all = borrow_all(owned.as_slice());
                    let last = tail(all.as_slice(), n);
                    return join_lines(last.as_slice());
                }
            },
            None => {},
        },
        None => {},
    }
    combined.to_owned()
}

/// The lines of the output after the line stages: replace rules, cleanup,
/// skip, keep, and dedup where it is switched on.
pub open spec fn pre_filtered_lines(config: FilterConfig, combined: Seq<char>) -> Seq<Seq<char>> {
    let replaced = replaced_lines(config.replace@, split_lines(combined));
    let cleaned = cleaned_lines(config.strip_ansi, config.trim_lines, replaced);
    let kept = keep_lines(views(config.keep@), skip_lines(views(config.skip@), cleaned));
    if config.dedup {
        deduped(kept, config.dedup_window)
    } else {
        kept
    }
}

/// The text that the later stages see: the pre-filtered lines joined by
/// newlines.
pub open spec fn pre_filtered(config: FilterConfig, combined: Seq<char>) -> Seq<char> {
    join(pre_filtered_lines(config, combined), newline())
}

/// The sections of the invocation, collected from the raw lines.
pub open spec fn sections_of(config: FilterConfig, combined: Seq<char>) -> Map<
    Seq<char>,
    SectionView,
> {
    if config.section.len() > 0 {
        collected_sections(config.section@, split_lines(combined))
    } else {
        Map::empty()
    }
}

/// What the branch path yields: the selected branch applied, or the
/// fallback where no branch is selected or the branch yields nothing.
pub open spec fn branch_path(config: FilterConfig, exit_code: i32, combined: Seq<char>) -> Seq<
    char,
> {
    let text = pre_filtered(config, combined);
    match selected_branch(config, exit_code) {
        Some(branch) => match branch_applied(
            branch,
            text,
            sections_of(config, combined),
            config.section.len() > 0,
        ) {
            Some(out) => out,
            None => fallback(config, text),
        },
        None => fallback(config, text),
    }
}

/// The output configuration of the structured path, with nothing set where
/// the rule set has none.
pub open spec fn output_config(config: FilterConfig) -> OutputConfig {
    match config.output {
        Some(o) => o,
        None => OutputConfig { format: None, group_counts_format: None, empty: None },
    }
}

/// Whether the script of the rule set is to be run: a script is configured
/// and no match-output rule fires.
pub open spec fn wants_script(config: FilterConfig, combined: Seq<char>) -> bool {
    config.lua_script is Some && first_matching(config.match_output@, combined) is None
}

/// The output before post-processing. Exactly one path yields it: the
/// first match-output rule that fires; else the script's output, where a
/// script is configured and gave one; else the structured path, where one
/// is configured; else the branch path.
pub open spec fn unprocessed(
    config: FilterConfig,
    exit_code: i32,
    combined: Seq<char>,
    script_output: Option<Seq<char>>,
) -> Seq<char> {
    match first_matching(config.match_output@, combined) {
        Some(i) => match_rendered(
            config.match_output@[i].output@,
            config.match_output@[i].contains@,
            combined,
        ),
        None => if config.lua_script is Some && script_output is Some {
            script_output->0
        } else {
            match config.parse {
                Some(p) => parse_rendered(
                    output_config(config),
                    parsed(p, pre_filtered_lines(config, combined)),
                ),
                None => branch_path(config, exit_code, combined),
            }
        },
    }
}

/// The output of one invocation.
pub open spec fn applied(
    config: FilterConfig,
    exit_code: i32,
    combined: Seq<char>,
    script_output: Option<Seq<char>>,
) -> Seq<char> {
    post_processed(
        config.strip_empty_lines,
        config.collapse_empty_lines,
        unprocessed(config, exit_code, combined, script_output),
    )
}

/// The view of an optional string.
pub open spec fn optional_text(s: Option<String>) -> Option<Seq<char>> {
    match s {
        Some(text) => Some(text@),
        None => None,
    }
}

/// Runs the line stages over the combined output.
pub fn pre_filter(config: &FilterConfig, combined: &str) -> (out: Vec<String>)
    ensures
        views(out@) == pre_filtered_lines(*config, combined@),
{
    let raw = lines(combined);
    let raw_lines = borrow_all(raw.as_slice());
    let replaced = apply_replace(config.replace.as_slice(), raw_lines.as_slice());
    let replaced_lines = borrow_all(replaced.as_slice());
    let cleaned = apply_line_cleanup(config, replaced_lines.as_slice());
    let cleaned_lines = borrow_all(cleaned.as_slice());
    let skipped = apply_skip(config.skip.as_slice(), cleaned_lines.as_slice());
    let kept = apply_keep(config.keep.as_slice(), skipped.as_slice());
    let deduped = if config.dedup {
        apply_dedup(kept.as_slice(), config.dedup_window)
    } else {
        kept
    };
    let mut out: Vec<String> = Vec::new();
    let mut i: usize = 0;
    while i < deduped.len()
        invariant
            i <= deduped.len(),
            out.len() == i,
            forall|j: int| 0 <= j < i ==> (#[trigger] out@[j])@ == deduped@[j]@,
        decreases deduped.len() - i,
    {
        out.push(deduped[i].to_owned());
        i += 1;
    }
    assert(views(out@) =~= str_views(deduped@));
    out
}

/// What the script of the rule set is to be run on: the pre-filtered text,
/// where a script is configured and no match-output rule fires. The caller
/// runs the script on it and hands what the script gave to `apply`.
pub fn script_input(config: &FilterConfig, result: &CommandResult) -> (out: Option<String>)
    ensures
        match out {
            Some(text) => wants_script(*config, result.combined@) && text@ == pre_filtered(
                *config,
                result.combined@,
            ),
            None => !wants_script(*config, result.combined@),
        },
{
    if config.lua_script.is_none() {
        return None;
    }
    match match_output::find_matching_rule(
        config.match_output.as_slice(),
        result.combined.as_str(),
    ) {
        Some(_) => None,
        None => {
            let filtered = pre_filter(config, result.combined.as_str());
            let borrowed = borrow_all(filtered.as_slice());
            Some(join_lines(borrowed.as_slice()))
        },
    }
}

/// Applies a rule set to the result of a command. `script_output` is what
/// the script of the rule set gave for `script_input`, or `None` where it
/// was not run, gave nothing or failed. Every input yields an output.
pub fn apply(config: &FilterConfig, result: &CommandResult, script_output: Option<String>) -> (out:
    FilterResult)
    ensures
        out.output@ == applied(
            *config,
            result.exit_code,
            result.combined@,
            optional_text(script_output),
        ),
{
    let combined = result.combined.as_str();
    match match_output::find_matching_rule(config.match_output.as_slice(), combined) {
        Some(rule) => {
            let output = match_output::render_output(
                rule.output.as_str(),
                rule.contains.as_str(),
                combined,
            );
            return FilterResult { output: post_process_output(config, output) };
        },
        None => {},
    }
    let filtered = pre_filter(config, combined);
    let filtered_lines = borrow_all(filtered.as_slice());
    if config.lua_script.is_some() {
        match script_output {
            Some(output) => {
                return FilterResult { output: post_process_output(config, output) };
            },
            None => {},
        }
    }
    match &config.parse {
        Some(parse_config) => {
            let parse_result = run_parse(parse_config, filtered_lines.as_slice());
            let output = match &config.output {
                Some(o) => parse::render_output(o, &parse_result),
                None => parse::render_output(&OutputConfig::default(), &parse_result),
            };
            return FilterResult { output: post_process_output(config, output) };
        },
        None => {},
    }
    let has_sections = config.section.len() > 0;
    let sections: SectionMap = if has_sections {
        let raw = lines(combined);
        let raw_lines = borrow_all(raw.as_slice());
        collect_sections(config.section.as_slice(), raw_lines.as_slice())
    } else {
        Table::new()
    };
    let text = join_lines(filtered_lines.as_slice());
    let output = match select_branch(config, result.exit_code) {
        Some(branch) => match apply_branch(branch, text.as_str(), &sections, has_sections) {
            Some(out) => out,
            None => apply_fallback(config, text.as_str()),
        },
        None => apply_fallback(config, text.as_str()),
    };
    FilterResult { output: post_process_output(config, output) }
}

/// With exit code 0 and no success branch, the branch path yields the
/// fallback of the pre-filtered text, whatever the failure branch holds.
pub proof fn lemma_success_without_branch_falls_back(config: FilterConfig, combined: Seq<char>)
    requires
        config.on_success is None,
    ensures
        branch_path(config, 0, combined) == fallback(config, pre_filtered(config, combined)),
{
}

/// With exit code 0 the failure branch has no part in the output: a rule
/// set gives the same output with any other failure branch, or with none.
pub proof fn lemma_success_ignores_failure_branch(
    config: FilterConfig,
    other: Option<OutputBranch>,
    combined: Seq<char>,
    script_output: Option<Seq<char>>,
)
    ensures
        applied(config, 0, combined, script_output) == applied(
            FilterConfig { on_failure: other, ..config },
            0,
            combined,
            script_output,
        ),
{
    let changed = FilterConfig { on_failure: other, ..config };
    assert(pre_filtered_lines(config, combined) == pre_filtered_lines(changed, combined));
    assert(sections_of(config, combined) == sections_of(changed, combined));
    assert(fallback(config, pre_filtered(config, combined)) == fallback(
        changed,
        pre_filtered(changed, combined),
    ));
    assert(branch_path(config, 0, combined) == branch_path(changed, 0, combined));
    assert(output_config(config) == output_config(changed));
    assert(unprocessed(config, 0, combined, script_output) == unprocessed(
        changed,
        0,
        combined,
        script_output,
    ));
}

/// With an exit code other than 0 the success branch has no part in the
/// output.
pub proof fn lemma_failure_ignores_success_branch(
    config: FilterConfig,
    other: Option<OutputBranch>,
    exit_code: i32,
    combined: Seq<char>,
    script_output: Option<Seq<char>>,
)
    requires
        exit_code != 0,
    ensures
        applied(config, exit_code, combined, script_output) == applied(
            FilterConfig { on_success: other, ..config },
            exit_code,
            combined,
            script_output,
        ),
{
    let changed = FilterConfig { on_success: other, ..config };
    assert(pre_filtered_lines(config, combined) == pre_filtered_lines(changed, combined));
    assert(sections_of(config, combined) == sections_of(changed, combined));
    assert(fallback(config, pre_filtered(config, combined)) == fallback(
        changed,
        pre_filtered(changed, combined),
    ));
    assert(branch_path(config, exit_code, combined) == branch_path(changed, exit_code, combined));
    assert(output_config(config) == output_config(changed));
    assert(unprocessed(config, exit_code, combined, script_output) == unprocessed(
        changed,
        exit_code,
        combined,
        script_output,
    ));
}

} // verus!
