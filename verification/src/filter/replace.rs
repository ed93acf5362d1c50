//! Rewriting each line by a list of replace rules.

use crate::config::types::ReplaceRule;
use crate::filter::extract::{interpolate, interpolated};
use crate::pattern::{regex_captures, regex_valid, Pattern};
use crate::text::{str_views, views};
use vstd::prelude::*;

verus! {

/// One rule applied to one line: where the pattern compiles and matches,
/// the template filled in with the capture groups; else the line.
pub open spec fn rule_applied(rule: ReplaceRule, line: Seq<char>) -> Seq<char> {
    if regex_valid(rule.pattern@) {
        match regex_captures(rule.pattern@, line) {
            Some(groups) => interpolated(rule.output@, groups),
            None => line,
        }
    } else {
        line
    }
}

/// The rules applied to one line in order, each to what the one before it
/// made of the line.
pub open spec fn replaced_line(rules: Seq<ReplaceRule>, line: Seq<char>) -> Seq<char>
    decreases rules.len(),
{
    if rules.len() == 0 {
        line
    } else {
        rule_applied(rules.last(), replaced_line(rules.drop_last(), line))
    }
}

/// The rules applied to every line.
pub open spec fn replaced_lines(rules: Seq<ReplaceRule>, lines: Seq<Seq<char>>) -> Seq<Seq<char>> {
    lines.map_values(|line: Seq<char>| replaced_line(rules, line))
}

/// Whether `compiled` holds, rule by rule, the compiled pattern of the rule,
/// and nothing for a rule whose pattern does not compile.
pub open spec fn compiled_for(compiled: Seq<Option<Pattern>>, rules: Seq<ReplaceRule>) -> bool {
    &&& compiled.len() == rules.len()
    &&& forall|k: int|
        0 <= k < rules.len() ==> match #[trigger] compiled[k] {
            Some(p) => regex_valid(rules[k].pattern@) && p.source() == rules[k].pattern@,
            None => !regex_valid(rules[k].pattern@),
        }
}

/// Compiles the pattern of each rule.
fn compile_rules(rules: &[ReplaceRule]) -> (out: Vec<Option<Pattern>>)
    ensures
        compiled_for(out@, rules@),
{
    let mut out: Vec<Option<Pattern>> = Vec::new();
    let mut k: usize = 0;
    while k < rules.len()
        invariant
            k <= rules.len(),
            compiled_for(out@, rules@.take(k as int)),
        decreases rules.len() - k,
    {
        out.push(Pattern::compile(rules[k].pattern.as_str()));
        k += 1;
    }
    assert(rules@.take(rules.len() as int) =~= rules@);
    out
}

/// Applies the compiled rules to one line, in order.
fn apply_rules_to_line(rules: &[ReplaceRule], compiled: &Vec<Option<Pattern>>, line: &str) -> (out:
    String)
    requires
        compiled_for(compiled@, rules@),
    ensures
        out@ == replaced_line(rules@, line@),
{
    let mut current: String = line.to_owned();
    let mut k: usize = 0;
    assert(rules@.take(0) =~= Seq::<ReplaceRule>::empty());
    while k < rules.len()
        invariant
            k <= rules.len(),
            compiled_for(compiled@, rules@),
            current@ == replaced_line(rules@.take(k as int), line@),
        decreases rules.len() - k,
    {
        assert(rules@.take(k as int + 1).drop_last() =~= rules@.take(k as int));
        match &compiled[k] {
            Some(p) => {
                match p.captures(current.as_str()) {
                    Some(groups) => {
                        current = interpolate(rules[k].output.as_str(), groups.as_slice());
                    },
                    None => {},
                }
            },
            None => {},
        }
        k += 1;
    }
    assert(rules@.take(rules.len() as int) =~= rules@);
    current
}

/// Applies the replace rules to each line, in order. A rule whose pattern
/// matches replaces the line by its template, filled in with the capture
/// groups, and the next rule sees that result. Rules whose pattern does not
/// compile are passed over.
pub fn apply_replace(rules: &[ReplaceRule], lines: &[&str]) -> (out: Vec<String>)
    ensures
        views(out@) == replaced_lines(rules@, str_views(lines@)),
{
    let compiled = compile_rules(rules);
    let mut out: Vec<String> = Vec::new();
    let mut i: usize = 0;
    while i < lines.len()
        invariant
            i <= lines.len(),
            compiled_for(compiled@, rules@),
            out.len() == i,
            forall|j: int| 0 <= j < i ==> (#[trigger] out@[j])@ == replaced_line(rules@, lines@[j]@),
        decreases lines.len() - i,
    {
        out.push(apply_rules_to_line(rules, &compiled, lines[i]));
        i += 1;
    }
    assert(views(out@) =~= replaced_lines(rules@, str_views(lines@)));
    out
}

} // verus!
