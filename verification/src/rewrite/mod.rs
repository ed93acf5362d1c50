//! Rewriting a command line so that it runs through a filter.

pub mod types;

use crate::config::{command_pattern_to_regex, pattern_regex, ResolvedFilter};
use crate::filter::extract::{interpolate, interpolated};
use crate::pattern::{
    any_matches, compile_all, group_views, lemma_compiled_matches, matches_any, regex_captures,
    regex_match_end, regex_valid, Pattern,
};
use crate::rewrite::types::{RewriteConfig, RewriteRule};
use crate::text::{
    chars_of, replace_all, replace_str, same_text, string_of_range, trim_start, trim_start_str,
    views,
};
use vstd::prelude::*;

verus! {

/// Commands that start with the program's own name are never rewritten.
pub const SKIP_OWN_COMMANDS: &'static str = "^tokf ";

/// Commands with a here-document are never rewritten.
pub const SKIP_HEREDOCS: &'static str = "<<";

/// The template of the rules that are built from filters.
pub const FILTER_RULE_TEMPLATE: &'static str = "tokf run {0}";

/// The skip patterns that are always active.
pub open spec fn builtin_skip_patterns() -> Seq<Seq<char>> {
    seq![SKIP_OWN_COMMANDS@, SKIP_HEREDOCS@]
}

/// Whether a command is left as it is: a built-in skip pattern or one of
/// the user's matches it. Patterns that do not compile count for nothing.
pub open spec fn skipped(command: Seq<char>, user_patterns: Seq<Seq<char>>) -> bool {
    any_matches(builtin_skip_patterns(), command) || any_matches(user_patterns, command)
}

/// Check if a command should be skipped (not rewritten).
pub fn should_skip(command: &str, user_patterns: &[String]) -> (out: bool)
    ensures
        out == skipped(command@, views(user_patterns@)),
{
    let mut builtin: Vec<String> = Vec::new();
    builtin.push(SKIP_OWN_COMMANDS.to_owned());
    builtin.push(SKIP_HEREDOCS.to_owned());
    assert(views(builtin@) =~= builtin_skip_patterns());
    let compiled_builtin = compile_all(builtin.as_slice());
    proof {
        lemma_compiled_matches(views(builtin@), compiled_builtin@, command@);
    }
    if matches_any(&compiled_builtin, command) {
        return true;
    }
    let compiled_user = compile_all(user_patterns);
    proof {
        lemma_compiled_matches(views(user_patterns@), compiled_user@, command@);
    }
    matches_any(&compiled_user, command)
}

/// The text behind the first match of `pattern` in `text`, without its
/// leading whitespace.
pub open spec fn rest_after_match(pattern: Seq<char>, text: Seq<char>) -> Seq<char> {
    trim_start(
        match regex_match_end(pattern, text) {
            Some(end) => if end <= text.len() {
                text.skip(end as int)
            } else {
                Seq::empty()
            },
            None => Seq::empty(),
        },
    )
}

/// A replacement template filled in: `{rest}` becomes `rest`, then the
/// placeholders of the capture groups become what the groups matched.
pub open spec fn rewrite_interpolated(
    template: Seq<char>,
    groups: Seq<Option<Seq<char>>>,
    rest: Seq<char>,
) -> Seq<char> {
    interpolated(replace_all(template, "{rest}"@, rest), groups)
}

/// Interpolate `{rest}` and `{0}`, `{1}`, `{2}`, ... in the replacement
/// template. `rest` is the text behind the match, already trimmed.
pub fn interpolate_rewrite(template: &str, groups: &[Option<String>], rest: &str) -> (out: String)
    ensures
        out@ == rewrite_interpolated(template@, group_views(groups@), rest@),
{
    let with_rest = replace_str(template, "{rest}", rest);
    interpolate(with_rest.as_str(), groups)
}

/// The views of a list of rules: pattern and template.
pub open spec fn rule_views(rules: Seq<RewriteRule>) -> Seq<(Seq<char>, Seq<char>)> {
    rules.map_values(|r: RewriteRule| (r.match_pattern@, r.replace@))
}

/// The command after the first rule whose pattern compiles and matches it
/// has been applied; the command itself where there is no such rule.
pub open spec fn rules_applied(rules: Seq<(Seq<char>, Seq<char>)>, command: Seq<char>) -> Seq<
    char,
>
    decreases rules.len(),
{
    if rules.len() == 0 {
        command
    } else if regex_valid(rules[0].0) {
        match regex_captures(rules[0].0, command) {
            Some(groups) => rewrite_interpolated(
                rules[0].1,
                groups,
                rest_after_match(rules[0].0, command),
            ),
            None => rules_applied(rules.drop_first(), command),
        }
    } else {
        rules_applied(rules.drop_first(), command)
    }
}

/// Apply the first matching rewrite rule. Returns the original command if
/// none match.
pub fn apply_rules(rules: &[RewriteRule], command: &str) -> (out: String)
    ensures
        out@ == rules_applied(rule_views(rules@), command@),
{
    let ghost all = rule_views(rules@);
    let mut i: usize = 0;
    assert(all.subrange(0, all.len() as int) =~= all);
    while i < rules.len()
        invariant
            i <= rules.len(),
            all == rule_views(rules@),
            rules_applied(all, command@) == rules_applied(
                all.subrange(i as int, all.len() as int),
                command@,
            ),
        decreases rules.len() - i,
    {
        let ghost rest_rules = all.subrange(i as int, all.len() as int);
        assert(rest_rules[0] == (rules@[i as int].match_pattern@, rules@[i as int].replace@));
        assert(rest_rules.drop_first() =~= all.subrange(i as int + 1, all.len() as int));
        match Pattern::compile(rules[i].match_pattern.as_str()) {
            Some(compiled) => {
                match compiled.captures(command) {
                    Some(groups) => {
                        let rest: String = match compiled.match_end(command) {
                            Some(end) => {
                                let chars = chars_of(command);
                                let behind = string_of_range(&chars, end, chars.len());
                                assert(chars@.subrange(end as int, chars.len() as int)
                                    =~= command@.skip(end as int));
                                trim_start_str(behind.as_str())
                            },
                            None => {
                                let nothing = String::new();
                                trim_start_str(nothing.as_str())
                            },
                        };
                        return interpolate_rewrite(
                            rules[i].replace.as_str(),
                            groups.as_slice(),
                            rest.as_str(),
                        );
                    },
                    None => {},
                }
            },
            None => {},
        }
        i += 1;
    }
    command.to_owned()
}

/// `seen` with `pattern` at its end, unless it holds it already.
pub open spec fn with_new(seen: Seq<Seq<char>>, pattern: Seq<char>) -> Seq<Seq<char>> {
    if seen.contains(pattern) {
        seen
    } else {
        seen.push(pattern)
    }
}

/// `seen` with those of `patterns` that it does not hold, in order.
pub open spec fn with_all_new(seen: Seq<Seq<char>>, patterns: Seq<Seq<char>>) -> Seq<Seq<char>>
    decreases patterns.len(),
{
    if patterns.len() == 0 {
        seen
    } else {
        with_new(with_all_new(seen, patterns.drop_last()), patterns.last())
    }
}

/// The command patterns of the filters, each once, in the order in which
/// they first occur.
pub open spec fn distinct_patterns(filters: Seq<ResolvedFilter>) -> Seq<Seq<char>>
    decreases filters.len(),
{
    if filters.len() == 0 {
        Seq::empty()
    } else {
        with_all_new(
            distinct_patterns(filters.drop_last()),
            filters.last().config.command.pattern_texts(),
        )
    }
}

/// The rules that stand for the filters: one for each distinct command
/// pattern, which sends the whole command through the program.
pub open spec fn filter_rules(filters: Seq<ResolvedFilter>) -> Seq<(Seq<char>, Seq<char>)> {
    distinct_patterns(filters).map_values(
        |p: Seq<char>| (pattern_regex(p), FILTER_RULE_TEMPLATE@),
    )
}

/// Tells whether `seen` holds `pattern`.
fn holds(seen: &Vec<String>, pattern: &str) -> (out: bool)
    ensures
        out == views(seen@).contains(pattern@),
{
    let mut i: usize = 0;
    while i < seen.len()
        invariant
            i <= seen.len(),
            forall|j: int| 0 <= j < i ==> seen@[j]@ != pattern@,
        decreases seen.len() - i,
    {
        if same_text(seen[i].as_str(), pattern) {
            assert(views(seen@)[i as int] == pattern@);
            return true;
        }
        i += 1;
    }
    assert forall|j: int| 0 <= j < views(seen@).len() implies views(seen@)[j] != pattern@ by {
        assert(views(seen@)[j] == seen@[j]@);
    }
    false
}

/// Build rewrite rules from the discovered filters: for each distinct
/// command pattern one rule that matches the commands of the pattern and
/// sends them through the program.
pub fn build_rules_from_filters(filters: &[ResolvedFilter]) -> (out: Vec<RewriteRule>)
    ensures
        rule_views(out@) == filter_rules(filters@),
{
    let mut rules: Vec<RewriteRule> = Vec::new();
    let mut seen: Vec<String> = Vec::new();
    let ghost make = |p: Seq<char>| (pattern_regex(p), FILTER_RULE_TEMPLATE@);
    let mut i: usize = 0;
    assert(filters@.take(0) =~= Seq::<ResolvedFilter>::empty());
    assert(views(seen@) =~= Seq::<Seq<char>>::empty());
    assert(rule_views(rules@) =~= views(seen@).map_values(make));
    while i < filters.len()
        invariant
            i <= filters.len(),
            make == |p: Seq<char>| (pattern_regex(p), FILTER_RULE_TEMPLATE@),
            views(seen@) == distinct_patterns(filters@.take(i as int)),
            rule_views(rules@) == views(seen@).map_values(make),
        decreases filters.len() - i,
    {
        assert(filters@.take(i as int + 1).drop_last() =~= filters@.take(i as int));
        let patterns = filters[i].config.command.patterns();
        let ghost texts = views(patterns@);
        let ghost before = views(seen@);
        let mut k: usize = 0;
        assert(texts.take(0) =~= Seq::<Seq<char>>::empty());
        while k < patterns.len()
            invariant
                k <= patterns.len(),
                texts == views(patterns@),
                make == |p: Seq<char>| (pattern_regex(p), FILTER_RULE_TEMPLATE@),
                views(seen@) == with_all_new(before, texts.take(k as int)),
                rule_views(rules@) == views(seen@).map_values(make),
            decreases patterns.len() - k,
        {
            assert(texts.take(k as int + 1).drop_last() =~= texts.take(k as int));
            assert(texts.take(k as int + 1).last() == patterns@[k as int]@);
            if !holds(&seen, patterns[k].as_str()) {
                let ghost seen_before = views(seen@);
                let ghost rules_before = rule_views(rules@);
                seen.push(patterns[k].clone());
                assert(views(seen@) =~= seen_before.push(patterns@[k as int]@));
                let rule = RewriteRule {
                    match_pattern: command_pattern_to_regex(patterns[k].as_str()),
                    replace: FILTER_RULE_TEMPLATE.to_owned(),
                };
                rules.push(rule);
                assert(rule_views(rules@) =~= rules_before.push(
                    (rule.match_pattern@, rule.replace@),
                ));
                assert(rule_views(rules@) =~= views(seen@).map_values(make));
            }
            k += 1;
        }
        assert(texts.take(patterns.len() as int) =~= texts);
        i += 1;
    }
    assert(filters@.take(filters.len() as int) =~= filters@);
    rules
}

/// The skip patterns of the user's configuration.
pub open spec fn user_skip_patterns(config: RewriteConfig) -> Seq<Seq<char>> {
    match config.skip {
        Some(s) => views(s.patterns@),
        None => Seq::empty(),
    }
}

/// The command as it is to be run: itself where it is skipped; else what
/// the user's rules make of it, where they change it; else what the rules
/// of the filters make of it.
pub open spec fn rewritten(
    command: Seq<char>,
    config: RewriteConfig,
    filters: Seq<ResolvedFilter>,
) -> Seq<char> {
    if skipped(command, user_skip_patterns(config)) {
        command
    } else {
        let by_user = rules_applied(rule_views(config.rewrite@), command);
        if by_user != command {
            by_user
        } else {
            rules_applied(filter_rules(filters), command)
        }
    }
}

/// Rewrites a command with the user's configuration and the discovered
/// filters: skip check first, then the user's rules, then the rules of the
/// filters.
pub fn rewrite_with_config(command: &str, user_config: &RewriteConfig, filters: &[ResolvedFilter]) -> (out:
    String)
    ensures
        out@ == rewritten(command@, *user_config, filters@),
{
    let skip = match &user_config.skip {
        Some(s) => should_skip(command, s.patterns.as_slice()),
        None => {
            let none: Vec<String> = Vec::new();
            assert(views(none@) =~= Seq::<Seq<char>>::empty());
            should_skip(command, none.as_slice())
        },
    };
    if skip {
        return command.to_owned();
    }
    let by_user = apply_rules(user_config.rewrite.as_slice(), command);
    if !same_text(by_user.as_str(), command) {
        return by_user;
    }
    let rules = build_rules_from_filters(filters);
    apply_rules(rules.as_slice(), command)
}

} // verus!
